//! How the state that the game client reports is matched against the model, and how
//! the model takes on what only the client knows: the map and a shop's stock.

use vstd::prelude::*;
use vstd::string::StrSliceExecFns;

use crate::models::cards::{self, has_card_named, BaseCard};
use crate::models::common::{str_eq, ChestType, Class};
use crate::models::potions::{self, has_potion_named, BasePotion};
use crate::models::relics::{self, has_relic_named, BaseRelic};
use crate::serialization as external;
use crate::state::collections::{
    battle_monster_count, battle_monster_get, battle_monsters, monster_listing, deck_cards, deck_entries, deck_get,
    deck_insert, deck_new, uuid_seq, uuid_seq_items, uuid_set, uuid_set_items, orb_at, orb_count, orb_items, reward_at, reward_items, rewards_len,
    name_index, name_index_get, name_index_insert, relic_entries, relic_map_entries,
    relic_map_get, lists_entries, slot_items, slots_items, store_cards, store_cards_from,
    store_cards_items, store_potions, store_potions_from, store_potions_items, store_relics, store_relics_from,
    store_relics_items,
};
use crate::state::common::{Buff, Card, CardOffer, Monster, Orb, Relic, Reward};
use crate::models::monsters::BaseMonster;
use crate::state::event::EventState;
use crate::state::battle::BattleState;
use crate::state::game::GameState;
use crate::models::monsters::Intent;
use crate::state::floor::FloorState;
use crate::state::map::{node_index, MapHistory, MapNode, MapNodeIcon, MapState};
use crate::state::shop::ShopState;

verus! {

/// Whether the client's symbol for a room is one the model knows.
pub open spec fn is_known_symbol(c: char) -> bool {
    c == 'M' || c == '?' || c == '$' || c == 'R' || c == 'T' || c == 'E'
}

/// The room that the client's symbol stands for.
pub open spec fn icon_of(c: char) -> MapNodeIcon {
    if c == 'M' {
        MapNodeIcon::Monster
    } else if c == '?' {
        MapNodeIcon::Question
    } else if c == '$' {
        MapNodeIcon::Shop
    } else if c == 'R' {
        MapNodeIcon::Campfire
    } else if c == 'T' {
        MapNodeIcon::Chest
    } else {
        MapNodeIcon::Elite
    }
}

/// Whether a node of the client has a child in the column at the given offset.
pub open spec fn has_child(node: external::MapNode, offset: int) -> bool {
    exists|i: int| 0 <= i < node.children@.len() && (#[trigger] node.children@[i]).x - offset == node.x
}

/// Whether the columns of a node of the client and of its children can be compared
/// without overflow.
pub open spec fn node_columns_ok(node: external::MapNode) -> bool {
    &&& node.x < i32::MAX
    &&& forall|i: int| 0 <= i < node.children@.len() ==> (#[trigger] node.children@[i]).x < i32::MAX
}

/// The node of the model for a node of the client: its place, a path to each column
/// that one of its children is in, and its room.
pub open spec fn node_of(node: external::MapNode) -> MapNode {
    MapNode {
        x: node.x as u8,
        y: node.y as u8,
        left: has_child(node, -1),
        up: has_child(node, 0),
        right: has_child(node, 1),
        icon: icon_of(node.symbol),
    }
}

/// The node of the model for a node of the client.
pub fn convert_node(node: &external::MapNode) -> (res: MapNode)
    requires
        is_known_symbol(node.symbol),
        node_columns_ok(*node),
    ensures
        res == node_of(*node),
{
    let mut left = false;
    let mut up = false;
    let mut right = false;
    let mut i: usize = 0;
    while i < node.children.len()
        invariant
            0 <= i <= node.children@.len(),
            node_columns_ok(*node),
            left == exists|j: int| 0 <= j < i && (#[trigger] node.children@[j]).x - (-1) == node.x,
            up == exists|j: int| 0 <= j < i && (#[trigger] node.children@[j]).x - 0 == node.x,
            right == exists|j: int| 0 <= j < i && (#[trigger] node.children@[j]).x - 1 == node.x,
        decreases node.children@.len() - i,
    {
        let a = &node.children[i];
        if a.x + 1 == node.x {
            left = true;
        }
        if a.x == node.x {
            up = true;
        }
        if a.x == node.x + 1 {
            right = true;
        }
        i = i + 1;
    }
    let icon = match node.symbol {
        'M' => MapNodeIcon::Monster,
        '?' => MapNodeIcon::Question,
        '$' => MapNodeIcon::Shop,
        'R' => MapNodeIcon::Campfire,
        'T' => MapNodeIcon::Chest,
        _ => MapNodeIcon::Elite,
    };
    MapNode {
        x: #[verifier::truncate] (node.x as u8),
        y: #[verifier::truncate] (node.y as u8),
        left,
        up,
        right,
        icon,
    }
}

/// Whether a relic of the client is the relic of the model: they have the same name.
pub fn relic_matches(external: &external::Relic, internal: &Relic) -> (res: bool)
    ensures
        res == (external.name@ == internal.base.name@),
{
    str_eq(external.name.as_str(), internal.base.name.as_str())
}


/// The grid of a map holding the given nodes, each at its place, a later node in place
/// of an earlier one at the same place.
pub open spec fn grid_of(nodes: Seq<MapNode>) -> Seq<Option<MapNode>>
    decreases nodes.len(),
{
    if nodes.len() == 0 {
        Seq::new(105, |i: int| None::<MapNode>)
    } else {
        grid_of(nodes.drop_last()).update(node_index(nodes.last()), Some(nodes.last()))
    }
}

/// Whether a node of the client lies on the grid and can be converted.
pub open spec fn node_convertible(node: external::MapNode) -> bool {
    &&& 0 <= node.x < 7
    &&& 0 <= node.y < 15
    &&& is_known_symbol(node.symbol)
    &&& node_columns_ok(node)
}

/// The column and row the client stands on: the current node on the map screen, else
/// no column and the floor as the row.
pub open spec fn position_of(state: external::GameState) -> (i32, i32) {
    match state.screen_state {
        external::ScreenState::MapScreen(current) => match current.current_node {
            Some(node) => (node.x, node.y),
            None => (-1i32, state.floor),
        },
        _ => (-1i32, state.floor),
    }
}

/// Whether a game of the client can be turned into a map: its nodes lie on the grid,
/// its position's place fits an `i32`, and the act's boss is known.
pub open spec fn map_convertible(state: external::GameState) -> bool {
    let (x, y) = position_of(state);
    &&& forall|i: int| 0 <= i < state.map@.len() ==> node_convertible(#[trigger] state.map@[i])
    &&& y >= 0 ==> y * 7 <= i32::MAX && i32::MIN <= y * 7 + x <= i32::MAX
    &&& state.act_boss is Some
}

/// The map of the model for the game of the client: its nodes, the place and floor the
/// client stands on, its boss, and no history yet.
pub fn convert_map(state: &external::GameState) -> (res: MapState)
    requires
        map_convertible(*state),
    ensures
        res.nodes@ == grid_of(state.map@.map_values(|n: external::MapNode| node_of(n))),
        ({
            let (x, y) = position_of(*state);
            &&& res.index == (if y >= 0 { Some((y * 7 + x) as usize) } else { None })
            &&& res.floor == y as i8
        }),
        res.boss@ == state.act_boss.unwrap()@,
        res.history.last_elite is None,
        res.history.easy_fight_count == 0,
{
    let ghost converted = state.map@.map_values(|n: external::MapNode| node_of(n));
    let mut nodes: [Option<MapNode>; 105] = [None; 105];
    proof {
        assert(nodes@ =~= grid_of(converted.take(0)));
    }
    let mut i: usize = 0;
    while i < state.map.len()
        invariant
            0 <= i <= state.map@.len(),
            converted == state.map@.map_values(|n: external::MapNode| node_of(n)),
            forall|j: int| 0 <= j < state.map@.len() ==> node_convertible(#[trigger] state.map@[j]),
            nodes@ == grid_of(converted.take(i as int)),
        decreases state.map@.len() - i,
    {
        let node = convert_node(&state.map[i]);
        let index = (node.x + node.y * 7) as usize;
        nodes[index] = Some(node);
        proof {
            assert(converted.take(i + 1).drop_last() =~= converted.take(i as int));
            assert(converted.take(i + 1).last() == node);
        }
        i = i + 1;
    }
    proof {
        assert(converted.take(state.map@.len() as int) =~= converted);
    }
    let (x, y): (i32, i32) = match &state.screen_state {
        external::ScreenState::MapScreen(current) => match &current.current_node {
            Some(node) => (node.x, node.y),
            None => (-1, state.floor),
        },
        _ => (-1, state.floor),
    };
    proof {
        assert((x, y) == position_of(*state));
    }
    let index = if y >= 0 {
        Some(#[verifier::truncate] ((y * 7 + x) as usize))
    } else {
        None
    };
    let boss = match &state.act_boss {
        Some(b) => b.clone(),
        None => String::new(),
    };
    MapState {
        nodes,
        index,
        floor: #[verifier::truncate] (y as i8),
        boss,
        history: MapHistory::new(),
    }
}

/// Whether a catalog entry is the first of a name in its catalog.
pub open spec fn first_named<T>(catalog: Seq<&'static T>, name: Seq<char>, item: &'static T, name_of: spec_fn(&'static T) -> Seq<char>) -> bool {
    exists|i: int| 0 <= i < catalog.len() && catalog[i] == item && name_of(item) == name
        && forall|j: int| 0 <= j < i ==> name_of(#[trigger] catalog[j]) != name
}

/// Whether a shop of the client can be taken on by the model: each offer has a price and
/// a name that the catalogs know.
pub open spec fn shop_convertible(
    state: external::ShopScreen,
    cards: Seq<&'static BaseCard>,
    potions: Seq<&'static BasePotion>,
    relics: Seq<&'static BaseRelic>,
) -> bool {
    &&& forall|i: int| 0 <= i < state.cards@.len() ==> (#[trigger] state.cards@[i]).price is Some && has_card_named(cards, state.cards@[i].name@)
    &&& forall|i: int| 0 <= i < state.potions@.len() ==> (#[trigger] state.potions@[i]).price is Some && has_potion_named(potions, state.potions@[i].name@)
    &&& forall|i: int| 0 <= i < state.relics@.len() ==> (#[trigger] state.relics@[i]).price is Some && has_relic_named(relics, state.relics@[i].name@)
}

/// Whether the shop `after` is the shop `before` having taken on the stock that the
/// client shows, with the catalogs' cards, potions and relics of the shown names.
pub open spec fn shop_taken(
    state: external::ShopScreen,
    before: ShopState,
    after: ShopState,
    cards: Seq<&'static BaseCard>,
    potions: Seq<&'static BasePotion>,
    relics: Seq<&'static BaseRelic>,
) -> bool {
    &&& after.generated
    &&& after.updated
    &&& after.can_purge == state.purge_available
    &&& store_cards(after.cards).len() == state.cards@.len()
    &&& forall|i: int| 0 <= i < state.cards@.len() ==> {
        let (offer, price) = #[trigger] store_cards(after.cards)[i];
        &&& first_named(cards, state.cards@[i].name@, offer.base, |c: &'static BaseCard| c.name@)
        &&& offer.upgraded == (state.cards@[i].upgrades > 0)
        &&& price == state.cards@[i].price.unwrap() as u16
    }
    &&& store_potions(after.potions).len() == state.potions@.len()
    &&& forall|i: int| 0 <= i < state.potions@.len() ==> {
        let (potion, price) = #[trigger] store_potions(after.potions)[i];
        &&& first_named(potions, state.potions@[i].name@, potion, |p: &'static BasePotion| p.name@)
        &&& price == state.potions@[i].price.unwrap() as u16
    }
    &&& store_relics(after.relics).len() == state.relics@.len()
    &&& forall|i: int| 0 <= i < state.relics@.len() ==> {
        let (relic, price) = #[trigger] store_relics(after.relics)[i];
        &&& first_named(relics, state.relics@[i].name@, relic, |r: &'static BaseRelic| r.name@)
        &&& price == state.relics@[i].price.unwrap() as u16
    }
    &&& after.game_state == before.game_state
    &&& after.screen_state == before.screen_state
}

/// Takes on the stock of a shop that the client shows: each card, potion and relic of
/// the catalogs by name, at the client's price, and whether a card can be removed. The
/// shop is then generated and up to date.
pub fn convert_shop(
    state: &external::ShopScreen,
    shop: &mut ShopState,
    card_catalog: &[&'static BaseCard],
    potion_catalog: &[&'static BasePotion],
    relic_catalog: &[&'static BaseRelic],
)
    requires
        shop_convertible(*state, card_catalog@, potion_catalog@, relic_catalog@),
    ensures
        shop_taken(*state, *old(shop), *final(shop), card_catalog@, potion_catalog@, relic_catalog@),
{
    shop.generated = true;
    shop.updated = true;
    let mut offers: Vec<(CardOffer, u16)> = Vec::new();
    let mut i: usize = 0;
    while i < state.cards.len()
        invariant
            0 <= i <= state.cards@.len(),
            shop_convertible(*state, card_catalog@, potion_catalog@, relic_catalog@),
            offers@.len() == i,
            forall|j: int| 0 <= j < i ==> {
                let (offer, price) = #[trigger] offers@[j];
                &&& first_named(card_catalog@, state.cards@[j].name@, offer.base, |c: &'static BaseCard| c.name@)
                &&& offer.upgraded == (state.cards@[j].upgrades > 0)
                &&& price == state.cards@[j].price.unwrap() as u16
            },
        decreases state.cards@.len() - i,
    {
        let card = &state.cards[i];
        let base = cards::by_name(card_catalog, card.name.as_str());
        let price = match card.price {
            Some(p) => #[verifier::truncate] (p as u16),
            None => 0,
        };
        offers.push((CardOffer { base, upgraded: card.upgrades > 0 }, price));
        i = i + 1;
    }
    shop.cards = store_cards_from(offers);
    let mut stock: Vec<(&'static BasePotion, u16)> = Vec::new();
    let mut i: usize = 0;
    while i < state.potions.len()
        invariant
            0 <= i <= state.potions@.len(),
            shop_convertible(*state, card_catalog@, potion_catalog@, relic_catalog@),
            stock@.len() == i,
            forall|j: int| 0 <= j < i ==> {
                let (potion, price) = #[trigger] stock@[j];
                &&& first_named(potion_catalog@, state.potions@[j].name@, potion, |p: &'static BasePotion| p.name@)
                &&& price == state.potions@[j].price.unwrap() as u16
            },
        decreases state.potions@.len() - i,
    {
        let potion = &state.potions[i];
        let base = potions::by_name(potion_catalog, potion.name.as_str());
        let price = match potion.price {
            Some(p) => #[verifier::truncate] (p as u16),
            None => 0,
        };
        stock.push((base, price));
        i = i + 1;
    }
    shop.potions = store_potions_from(stock);
    let mut shelf: Vec<(&'static BaseRelic, u16)> = Vec::new();
    let mut i: usize = 0;
    while i < state.relics.len()
        invariant
            0 <= i <= state.relics@.len(),
            shop_convertible(*state, card_catalog@, potion_catalog@, relic_catalog@),
            shelf@.len() == i,
            forall|j: int| 0 <= j < i ==> {
                let (relic, price) = #[trigger] shelf@[j];
                &&& first_named(relic_catalog@, state.relics@[j].name@, relic, |r: &'static BaseRelic| r.name@)
                &&& price == state.relics@[j].price.unwrap() as u16
            },
        decreases state.relics@.len() - i,
    {
        let relic = &state.relics[i];
        let base = relics::by_name(relic_catalog, relic.name.as_str());
        let price = match relic.price {
            Some(p) => #[verifier::truncate] (p as u16),
            None => 0,
        };
        shelf.push((base, price));
        i = i + 1;
    }
    shop.relics = store_relics_from(shelf);
    shop.can_purge = state.purge_available;
}


/// Whether the map of a game of the client is the map `m`, as `convert_map` makes it.
pub open spec fn map_of(state: external::GameState, m: MapState) -> bool {
    let (x, y) = position_of(state);
    &&& m.nodes@ == grid_of(state.map@.map_values(|n: external::MapNode| node_of(n)))
    &&& m.index == (if y >= 0 { Some((y * 7 + x) as usize) } else { None })
    &&& m.floor == y as i8
    &&& m.boss@ == state.act_boss.unwrap()@
}

/// Whether the client is on the first floor of an act, out of combat, where the map is
/// taken on.
pub open spec fn takes_map(state: external::GameState) -> bool {
    (state.floor == 0 || state.floor == 18 || state.floor == 35 || state.floor == 52) && state.combat_state is None
}

/// A floor state with the map of its run replaced.
pub open spec fn with_map(f: FloorState, m: MapState) -> FloorState {
    match f {
        FloorState::Event(s) => FloorState::Event(crate::state::event::EventState { game_state: crate::state::game::GameState { map: m, ..s.game_state }, ..s }),
        FloorState::Rest(s) => FloorState::Rest(crate::state::floor::RestState { game_state: crate::state::game::GameState { map: m, ..s.game_state }, ..s }),
        FloorState::Chest(s) => FloorState::Chest(crate::state::floor::ChestState { game_state: crate::state::game::GameState { map: m, ..s.game_state }, ..s }),
        FloorState::Battle(s) => FloorState::Battle(crate::state::battle::BattleState { game_state: crate::state::game::GameState { map: m, ..s.game_state }, ..s }),
        FloorState::BattleOver(s) => FloorState::BattleOver(crate::state::floor::BattleOverState { game_state: crate::state::game::GameState { map: m, ..s.game_state }, ..s }),
        FloorState::Shop(s) => FloorState::Shop(ShopState { game_state: crate::state::game::GameState { map: m, ..s.game_state }, ..s }),
        FloorState::OnMap(s) => FloorState::OnMap(crate::state::game::GameState { map: m, ..s }),
        _ => f,
    }
}

/// Replaces the map of the run of a floor state that holds one.
fn set_map(f: &mut FloorState, m: MapState)
    requires
        crate::state::floor::has_game(*old(f)),
    ensures
        *final(f) == with_map(*old(f), m),
{
    match f {
        FloorState::Event(s) => s.game_state.map = m,
        FloorState::Rest(s) => s.game_state.map = m,
        FloorState::Chest(s) => s.game_state.map = m,
        FloorState::Battle(s) => s.game_state.map = m,
        FloorState::BattleOver(s) => s.game_state.map = m,
        FloorState::Shop(s) => s.game_state.map = m,
        FloorState::OnMap(s) => s.map = m,
        _ => {},
    }
}

/// Whether the model can take on what a game of the client shows: a map where it takes
/// one (into a floor state that holds a run), and the stock of a shop the client shows
/// (into a shop).
pub open spec fn state_updatable(
    external: Option<external::GameState>,
    internal: FloorState,
    cards: Seq<&'static BaseCard>,
    potions: Seq<&'static BasePotion>,
    relics: Seq<&'static BaseRelic>,
) -> bool {
    match external {
        None => true,
        Some(e) => {
            &&& takes_map(e) ==> crate::state::floor::has_game(internal) && map_convertible(e)
            &&& e.screen_state matches external::ScreenState::ShopScreen(s) ==> internal matches FloorState::Shop(shop)
                && (!shop.updated ==> shop_convertible(s, cards, potions, relics))
        },
    }
}

/// Whether `mid` is `before` with the map of the client's game taken on where the client
/// is on the first floor of an act out of combat, and `before` itself elsewhere.
pub open spec fn map_taken(e: external::GameState, before: FloorState, mid: FloorState) -> bool {
    if takes_map(e) {
        exists|m: MapState| #[trigger] map_of(e, m) && mid == with_map(before, m)
    } else {
        mid == before
    }
}

/// Whether `after` is `mid` with the stock of the shop that the client shows taken on,
/// where `mid` is a shop whose stock was not taken on yet, and `mid` itself elsewhere.
pub open spec fn shop_stock_taken(
    e: external::GameState,
    mid: FloorState,
    after: FloorState,
    cards: Seq<&'static BaseCard>,
    potions: Seq<&'static BasePotion>,
    relics: Seq<&'static BaseRelic>,
) -> bool {
    match e.screen_state {
        external::ScreenState::ShopScreen(s) => match mid {
            FloorState::Shop(shop) => if shop.updated {
                after == mid
            } else {
                after matches FloorState::Shop(new) && shop_taken(s, shop, new, cards, potions, relics)
            },
            _ => after == mid,
        },
        _ => after == mid,
    }
}

/// Whether `after` is what `update_state` makes of `before` for the client's game `e`,
/// through the state `mid` that holds the map taken on.
pub open spec fn state_updated(
    e: external::GameState,
    before: FloorState,
    mid: FloorState,
    after: FloorState,
    cards: Seq<&'static BaseCard>,
    potions: Seq<&'static BasePotion>,
    relics: Seq<&'static BaseRelic>,
) -> bool {
    map_taken(e, before, mid) && shop_stock_taken(e, mid, after, cards, potions, relics)
}

/// Taking on the same game of the client a second time takes on no shop stock again: the
/// second call leaves the state as its taking on of the map left it, and where the
/// client is not on the first floor of an act out of combat, as the first call left it.
pub proof fn law_second_update_settles(
    e: external::GameState,
    s0: FloorState,
    m1: FloorState,
    s1: FloorState,
    m2: FloorState,
    s2: FloorState,
    cards: Seq<&'static BaseCard>,
    potions: Seq<&'static BasePotion>,
    relics: Seq<&'static BaseRelic>,
)
    requires
        state_updated(e, s0, m1, s1, cards, potions, relics),
        state_updated(e, s1, m2, s2, cards, potions, relics),
    ensures
        s2 == m2,
        !takes_map(e) ==> s2 == s1,
{
    if takes_map(e) {
        let m = choose|m: MapState| #[trigger] map_of(e, m) && m2 == with_map(s1, m);
        assert(m2 == with_map(s1, m));
    }
}

/// Takes on what the client shows that the model cannot know: on the first floor of an
/// act out of combat, the map; on a shop's screen, the shop's stock, once.
pub fn update_state(
    external: &Option<external::GameState>,
    internal: &mut FloorState,
    card_catalog: &[&'static BaseCard],
    potion_catalog: &[&'static BasePotion],
    relic_catalog: &[&'static BaseRelic],
)
    requires
        state_updatable(*external, *old(internal), card_catalog@, potion_catalog@, relic_catalog@),
    ensures
        external is None ==> *final(internal) == *old(internal),
        *external matches Some(e) ==> exists|mid: FloorState| #[trigger] state_updated(
            e,
            *old(internal),
            mid,
            *final(internal),
            card_catalog@,
            potion_catalog@,
            relic_catalog@,
        ),
{
    match external {
        Some(e) => {
            let ghost start = *internal;
            if (e.floor == 0 || e.floor == 18 || e.floor == 35 || e.floor == 52) && e.combat_state.is_none() {
                let m = convert_map(e);
                set_map(internal, m);
                proof {
                    assert(map_of(*e, m));
                }
            }
            let ghost mid = *internal;
            assert(map_taken(*e, start, mid));
            match &e.screen_state {
                external::ScreenState::ShopScreen(state) => {
                    match internal {
                        FloorState::Shop(shop) => {
                            if !shop.updated {
                                convert_shop(state, shop, card_catalog, potion_catalog, relic_catalog);
                            }
                        },
                        _ => {},
                    }
                },
                _ => {},
            }
            assert(state_updated(*e, start, mid, *internal, card_catalog@, potion_catalog@, relic_catalog@));
        },
        None => {},
    }
}

// ---- matching what the client reports against the model ----
/// An item that the client reports with an identifier of its own.
pub trait Keyed: Sized {
    /// The client's identifier of the item.
    spec fn key_of(&self) -> Seq<char>;

    /// The client's identifier of the item.
    fn key(&self) -> (res: &str)
        ensures
            res@ == self.key_of(),
    ;
}

/// An item that the client reports and that the model holds as a `B`.
pub trait Reported<B>: Keyed {
    /// Whether the item is the given item of the model.
    spec fn fits(&self, item: B) -> bool;

    /// Whether the item is the given item of the model.
    fn matches(&self, item: &B) -> (res: bool)
        ensures
            res == self.fits(*item),
    ;
}

impl Keyed for external::Relic {
    open spec fn key_of(&self) -> Seq<char> {
        self.id@
    }

    fn key(&self) -> (res: &str) {
        self.id.as_str()
    }
}

impl Reported<Relic> for external::Relic {
    open spec fn fits(&self, item: Relic) -> bool {
        self.name@ == item.base.name@
    }

    fn matches(&self, item: &Relic) -> (res: bool) {
        relic_matches(self, item)
    }
}

impl Keyed for external::Card {
    open spec fn key_of(&self) -> Seq<char> {
        self.id@
    }

    fn key(&self) -> (res: &str) {
        self.id.as_str()
    }
}

impl Reported<Card> for external::Card {
    open spec fn fits(&self, item: Card) -> bool {
        card_fits(*self, item)
    }

    fn matches(&self, item: &Card) -> (res: bool) {
        card_matches(self, item)
    }
}

impl Keyed for external::Power {
    open spec fn key_of(&self) -> Seq<char> {
        self.id@
    }

    fn key(&self) -> (res: &str) {
        self.id.as_str()
    }
}

impl Reported<Buff> for external::Power {
    open spec fn fits(&self, item: Buff) -> bool {
        self.name@ == item.base.name@ && self.amount as i16 == item.vars.n
    }

    fn matches(&self, item: &Buff) -> (res: bool) {
        str_eq(self.name.as_str(), item.base.name.as_str()) && #[verifier::truncate] (self.amount as i16) == item.vars.n
    }
}

/// A card's name as the client writes it, without the `+` that marks an upgrade.
pub open spec fn plain_name(name: Seq<char>) -> Seq<char> {
    if name.len() > 0 && name.last() == '+' {
        name.drop_last()
    } else {
        name
    }
}

/// Whether a card of the client is a card of the model: the same name, upgrades and
/// cost.
pub open spec fn card_fits(external: external::Card, internal: Card) -> bool {
    &&& plain_name(external.name@) == internal.base.name@
    &&& external.upgrades as u8 == internal.upgrades
    &&& external.cost as u8 == internal.cost
}

/// Whether the name of a card of the client, without its `+`, is the given name.
fn plain_name_is(name: &str, other: &str) -> (res: bool)
    ensures
        res == (plain_name(name@) == other@),
{
    let n = name.unicode_len();
    if n > 0 && name.get_char(n - 1) == '+' {
        let shown = name.substring_char(0, n - 1);
        proof {
            assert(shown@ =~= name@.drop_last());
        }
        str_eq(shown, other)
    } else {
        str_eq(name, other)
    }
}

/// Whether a card of the client is a card of the model: the same name, upgrades and
/// cost.
fn card_matches(external: &external::Card, internal: &Card) -> (res: bool)
    ensures
        res == card_fits(*external, *internal),
{
    plain_name_is(external.name.as_str(), internal.base.name.as_str())
        && #[verifier::truncate] (external.upgrades as u8) == internal.upgrades
        && #[verifier::truncate] (external.cost as u8) == internal.cost
}

/// Whether a card offered in a shop is the card the client shows at the price it shows:
/// the same name, upgraded the same, and the price, which the client must show once
/// name and upgrade agree.
fn card_offer_matches(external: &external::Card, internal: &CardOffer, price: u16) -> (res: bool)
    requires
        plain_name(external.name@) == internal.base.name@ && (external.upgrades > 0) == internal.upgraded
            ==> external.price is Some,
    ensures
        res == (plain_name(external.name@) == internal.base.name@ && (external.upgrades > 0)
            == internal.upgraded && external.price.unwrap() as u16 == price),
{
    plain_name_is(external.name.as_str(), internal.base.name.as_str())
        && (external.upgrades > 0) == internal.upgraded
        && #[verifier::truncate] (external.price.unwrap() as u16) == price
}

/// Whether the client's item is under an identifier that the map of identifiers points
/// at no item of the model.
pub open spec fn dangling<A: Keyed, B>(a: A, m: Map<u128, B>, idx: Map<Seq<char>, u128>) -> bool {
    idx.contains_key(a.key_of()) && !m.contains_key(idx[a.key_of()])
}

/// Whether the client's item is under an identifier that the map points at an item of
/// the model that it is not.
pub open spec fn mismatched<A: Reported<B>, B>(a: A, m: Map<u128, B>, idx: Map<Seq<char>, u128>) -> bool {
    idx.contains_key(a.key_of()) && m.contains_key(idx[a.key_of()]) && !a.fits(m[idx[a.key_of()]])
}

/// Whether matching the client's items against the model's runs without failing: where
/// the counts agree, no item whose identifier points at nothing is reached before an
/// item is found that is not what its identifier points at.
pub open spec fn sets_safe<A: Reported<B>, B>(ext: Seq<A>, m: Map<u128, B>, idx: Map<Seq<char>, u128>) -> bool {
    ext.len() == m.dom().len() ==> forall|i: int|
        0 <= i < ext.len() && #[trigger] dangling(ext[i], m, idx) ==> exists|j: int|
            0 <= j < i && #[trigger] mismatched(ext[j], m, idx)
}

/// Whether no item of the client has its identifier pointed at the identifier `u`.
pub open spec fn unclaimed<A: Keyed>(ext: Seq<A>, idx: Map<Seq<char>, u128>, u: u128) -> bool {
    forall|j: int|
        0 <= j < ext.len() && idx.contains_key((#[trigger] ext[j]).key_of()) ==> idx[ext[j].key_of()] != u
}

/// Whether some item of the model that no identifier of the client points at is the
/// client's item `a`.
pub open spec fn has_fit<A: Reported<B>, B>(a: A, ext: Seq<A>, m: Map<u128, B>, idx: Map<Seq<char>, u128>) -> bool {
    exists|u: u128| #[trigger] m.contains_key(u) && unclaimed(ext, idx, u) && a.fits(m[u])
}

/// Whether the client's items are the model's: as many of each; each item whose
/// identifier is known is the item it points at; and each other item is some item of
/// the model that no known identifier points at.
pub open spec fn sets_ok<A: Reported<B>, B>(ext: Seq<A>, m: Map<u128, B>, idx: Map<Seq<char>, u128>) -> bool {
    &&& ext.len() == m.dom().len()
    &&& forall|i: int| 0 <= i < ext.len() ==> !#[trigger] mismatched(ext[i], m, idx)
    &&& forall|i: int|
        0 <= i < ext.len() && !idx.contains_key((#[trigger] ext[i]).key_of()) ==> has_fit(ext[i], ext, m, idx)
}

/// The map of identifiers after the first `n` items of the client are walked: each item
/// whose identifier was unknown is pointed at its pick.
pub open spec fn picks_walk<A: Keyed>(ext: Seq<A>, idx: Map<Seq<char>, u128>, picks: Seq<u128>, n: int) -> Map<Seq<char>, u128>
    decreases n,
{
    if n <= 0 {
        idx
    } else {
        let prev = picks_walk(ext, idx, picks, n - 1);
        if idx.contains_key(ext[n - 1].key_of()) {
            prev
        } else {
            prev.insert(ext[n - 1].key_of(), picks[n - 1])
        }
    }
}

/// Whether the walk stopped at item `s` with the given picks: each item before it whose
/// identifier was unknown picked an item of the model that it is and that no known
/// identifier points at; item `s`, if any, has an unknown identifier and no such item;
/// and `idx2` is the map of identifiers after the walk.
pub open spec fn walk_fits<A: Reported<B>, B>(
    ext: Seq<A>,
    m: Map<u128, B>,
    idx: Map<Seq<char>, u128>,
    idx2: Map<Seq<char>, u128>,
    picks: Seq<u128>,
    s: int,
) -> bool {
    &&& picks.len() == ext.len()
    &&& 0 <= s <= ext.len()
    &&& forall|i: int|
        0 <= i < s && !idx.contains_key((#[trigger] ext[i]).key_of()) ==> m.contains_key(picks[i])
            && unclaimed(ext, idx, picks[i]) && ext[i].fits(m[picks[i]])
    &&& s < ext.len() ==> !idx.contains_key(ext[s].key_of()) && !has_fit(ext[s], ext, m, idx)
    &&& idx2 == picks_walk(ext, idx, picks, s)
}

/// What matching does to the map of identifiers: where the counts differ or an item is
/// not what its identifier points at, nothing; else each item whose identifier was
/// unknown, in order and up to the first that matches nothing, is pointed at one item of
/// the model that it is and that no known identifier points at, which one not being
/// stated.
pub open spec fn sets_after<A: Reported<B>, B>(
    ext: Seq<A>,
    m: Map<u128, B>,
    idx: Map<Seq<char>, u128>,
    idx2: Map<Seq<char>, u128>,
) -> bool {
    if ext.len() != m.dom().len() || exists|i: int| 0 <= i < ext.len() && #[trigger] mismatched(ext[i], m, idx) {
        idx2 == idx
    } else {
        exists|picks: Seq<u128>, s: int| #[trigger] walk_fits(ext, m, idx, idx2, picks, s)
    }
}

/// The walk up to `n` depends on the picks before `n` only.
proof fn lemma_walk_prefix<A: Keyed>(ext: Seq<A>, idx: Map<Seq<char>, u128>, p1: Seq<u128>, p2: Seq<u128>, n: int)
    requires
        forall|i: int| 0 <= i < n ==> p1[i] == p2[i],
    ensures
        picks_walk(ext, idx, p1, n) == picks_walk(ext, idx, p2, n),
    decreases n,
{
    if n > 0 {
        lemma_walk_prefix(ext, idx, p1, p2, n - 1);
    }
}

/// Whether no two of the client's items share an identifier.
pub open spec fn keys_distinct<A: Keyed>(ext: Seq<A>) -> bool {
    forall|i: int, j: int| 0 <= i < j < ext.len() ==> (#[trigger] ext[i]).key_of() != (#[trigger] ext[j]).key_of()
}

/// Where the client's identifiers differ, the walk up to `n` points each item before `n`
/// at what its identifier pointed at, if it was known, or else at its pick, and leaves
/// every other identifier as it was.
proof fn lemma_walk_points<A: Keyed>(ext: Seq<A>, idx: Map<Seq<char>, u128>, picks: Seq<u128>, n: int)
    requires
        0 <= n <= ext.len(),
        keys_distinct(ext),
    ensures
        forall|j: int|
            0 <= j < n ==> picks_walk(ext, idx, picks, n).contains_key((#[trigger] ext[j]).key_of())
                && picks_walk(ext, idx, picks, n)[ext[j].key_of()] == if idx.contains_key(ext[j].key_of()) {
                    idx[ext[j].key_of()]
                } else {
                    picks[j]
                },
        forall|k: Seq<char>|
            (forall|j: int| 0 <= j < n ==> (#[trigger] ext[j]).key_of() != k) ==> (#[trigger] picks_walk(ext, idx, picks, n).contains_key(k)
                == idx.contains_key(k) && (idx.contains_key(k) ==> picks_walk(ext, idx, picks, n)[k] == idx[k])),
    decreases n,
{
    if n > 0 {
        lemma_walk_points(ext, idx, picks, n - 1);
        let prev = picks_walk(ext, idx, picks, n - 1);
        let cur = picks_walk(ext, idx, picks, n);
        let k = ext[n - 1].key_of();
        assert forall|j: int| 0 <= j < n - 1 implies (#[trigger] ext[j]).key_of() != k by {
            assert(ext[j].key_of() != ext[n - 1].key_of());
        }
        assert(prev.contains_key(k) == idx.contains_key(k));
        if idx.contains_key(k) {
            assert(cur == prev);
        } else {
            assert(cur == prev.insert(k, picks[n - 1]));
        }
        assert forall|j: int| 0 <= j < n implies cur.contains_key((#[trigger] ext[j]).key_of()) && cur[ext[j].key_of()]
            == if idx.contains_key(ext[j].key_of()) {
                idx[ext[j].key_of()]
            } else {
                picks[j]
            } by {
            if j < n - 1 {
                assert(ext[j].key_of() != k);
                assert(prev.contains_key(ext[j].key_of()));
            }
        }
        assert forall|k2: Seq<char>|
            (forall|j: int| 0 <= j < n ==> (#[trigger] ext[j]).key_of() != k2) implies (#[trigger] cur.contains_key(k2)
                == idx.contains_key(k2) && (idx.contains_key(k2) ==> cur[k2] == idx[k2])) by {
            assert(ext[n - 1].key_of() != k2);
            assert forall|j: int| 0 <= j < n - 1 implies (#[trigger] ext[j]).key_of() != k2 by {
                assert(0 <= j < n);
            }
            assert(prev.contains_key(k2) == idx.contains_key(k2));
        }
    }
}

/// Once the client's items, whose identifiers differ, are found to be the model's, the
/// map of identifiers knows each of them and points it at an item of the model that it
/// is.
pub proof fn law_matching_knows_each_item<A: Reported<B>, B>(
    ext: Seq<A>,
    m: Map<u128, B>,
    idx: Map<Seq<char>, u128>,
    idx2: Map<Seq<char>, u128>,
)
    requires
        keys_distinct(ext),
        sets_safe(ext, m, idx),
        sets_ok(ext, m, idx),
        sets_after(ext, m, idx, idx2),
    ensures
        forall|i: int|
            0 <= i < ext.len() ==> idx2.contains_key((#[trigger] ext[i]).key_of()) && m.contains_key(idx2[ext[i].key_of()])
                && ext[i].fits(m[idx2[ext[i].key_of()]]),
{
    assert(!exists|i: int| 0 <= i < ext.len() && #[trigger] mismatched(ext[i], m, idx));
    let (picks, s) = choose|picks: Seq<u128>, s: int| #[trigger] walk_fits(ext, m, idx, idx2, picks, s);
    if s < ext.len() {
        assert(has_fit(ext[s], ext, m, idx));
    }
    lemma_walk_points(ext, idx, picks, ext.len() as int);
    assert forall|i: int| 0 <= i < ext.len() implies idx2.contains_key((#[trigger] ext[i]).key_of()) && m.contains_key(idx2[ext[i].key_of()])
        && ext[i].fits(m[idx2[ext[i].key_of()]]) by {
        assert(!mismatched(ext[i], m, idx));
        if dangling(ext[i], m, idx) {
            let j = choose|j: int| 0 <= j < i && #[trigger] mismatched(ext[j], m, idx);
            assert(!mismatched(ext[j], m, idx));
        }
    }
}

/// Whether a list holds the identifier.
fn holds_uuid(v: &Vec<u128>, u: u128) -> (res: bool)
    ensures
        res == v@.contains(u),
{
    let mut i: usize = 0;
    while i < v.len()
        invariant
            0 <= i <= v@.len(),
            forall|j: int| 0 <= j < i ==> v@[j] != u,
        decreases v@.len() - i,
    {
        if v[i] == u {
            return true;
        }
        i = i + 1;
    }
    false
}

/// The position of the entry under the identifier, if any.
fn entry_position<B>(entries: &Vec<(u128, B)>, u: u128) -> (res: Option<usize>)
    ensures
        res matches Some(k) ==> k < entries@.len() && entries@[k as int].0 == u,
        res is None ==> forall|k: int| 0 <= k < entries@.len() ==> entries@[k].0 != u,
{
    let mut k: usize = 0;
    while k < entries.len()
        invariant
            0 <= k <= entries@.len(),
            forall|j: int| 0 <= j < k ==> entries@[j].0 != u,
        decreases entries@.len() - k,
    {
        if entries[k].0 == u {
            return Some(k);
        }
        k = k + 1;
    }
    None
}

/// Matches the client's items against the model's, listed in `entries`: false where the
/// counts differ or an item whose identifier is known is not what it points at; then
/// each item whose identifier is unknown is matched, in order, against the items of the
/// model that no known identifier points at, its identifier pointed at the first that
/// it is, and false where none is.
fn sets_match<A: Reported<B>, B>(
    external: &Vec<A>,
    entries: &Vec<(u128, B)>,
    uuid_map: &mut im::HashMap<String, u128>,
    Ghost(m): Ghost<Map<u128, B>>,
) -> (res: bool)
    requires
        lists_entries(entries@, m),
        sets_safe(external@, m, name_index(*old(uuid_map))),
    ensures
        res == sets_ok(external@, m, name_index(*old(uuid_map))),
        sets_after(external@, m, name_index(*old(uuid_map)), name_index(*final(uuid_map))),
{
    let ghost idx0 = name_index(*uuid_map);
    let ghost ext = external@;
    if external.len() != entries.len() {
        return false;
    }
    let mut used: Vec<u128> = Vec::new();
    let mut unmapped: Vec<bool> = Vec::new();
    let mut i: usize = 0;
    while i < external.len()
        invariant
            0 <= i <= ext.len(),
            ext == external@,
            idx0 == name_index(*old(uuid_map)),
            ext.len() == m.dom().len(),
            lists_entries(entries@, m),
            sets_safe(ext, m, idx0),
            name_index(*uuid_map) == idx0,
            unmapped@.len() == i,
            forall|j: int| 0 <= j < i ==> unmapped@[j] == !idx0.contains_key((#[trigger] ext[j]).key_of()),
            forall|j: int| 0 <= j < i ==> !#[trigger] mismatched(ext[j], m, idx0),
            forall|j: int| 0 <= j < i ==> !#[trigger] dangling(ext[j], m, idx0),
            forall|u: u128| #[trigger] used@.contains(u) <==> exists|j: int|
                0 <= j < i && idx0.contains_key((#[trigger] ext[j]).key_of()) && idx0[ext[j].key_of()] == u,
        decreases ext.len() - i,
    {
        let a = &external[i];
        match name_index_get(uuid_map, a.key()) {
            Some(u) => {
                match entry_position(entries, u) {
                    Some(k) => {
                        assert(m.contains_key(entries@[k as int].0));
                        assert(m.contains_key(u) && m[u] == entries@[k as int].1);
                        if !a.matches(&entries[k].1) {
                            assert(mismatched(ext[i as int], m, idx0));
                            assert(exists|j: int| 0 <= j < ext.len() && #[trigger] mismatched(ext[j], m, idx0));
                            return false;
                        }
                        let ghost before = used@;
                        used.push(u);
                        unmapped.push(false);
                        assert forall|v: u128| #[trigger] used@.contains(v) <==> exists|j: int|
                            0 <= j < i + 1 && idx0.contains_key((#[trigger] ext[j]).key_of()) && idx0[ext[j].key_of()] == v by {
                            assert(used@ == before.push(u));
                            if used@.contains(v) {
                                if v != u {
                                    let x = choose|x: int| 0 <= x < used@.len() && used@[x] == v;
                                    assert(before[x] == v);
                                    assert(before.contains(v));
                                } else {
                                    assert(idx0.contains_key(ext[i as int].key_of()) && idx0[ext[i as int].key_of()] == v);
                                }
                            }
                            if exists|j: int| 0 <= j < i + 1 && idx0.contains_key((#[trigger] ext[j]).key_of()) && idx0[ext[j].key_of()] == v {
                                if v != u {
                                    let j = choose|j: int| 0 <= j < i + 1 && idx0.contains_key((#[trigger] ext[j]).key_of()) && idx0[ext[j].key_of()] == v;
                                    assert(j < i);
                                    assert(before.contains(v));
                                    let x = choose|x: int| 0 <= x < before.len() && before[x] == v;
                                    assert(used@[x] == v);
                                } else {
                                    assert(used@[before.len() as int] == v);
                                }
                                assert(used@.contains(v));
                            }
                        }
                    },
                    None => {
                        assert(dangling(ext[i as int], m, idx0));
                        assert(false);
                    },
                }
            },
            None => {
                unmapped.push(true);
            },
        }
        i = i + 1;
    }
    // the items of the model that no known identifier points at
    let mut pool: Vec<usize> = Vec::new();
    let mut k: usize = 0;
    while k < entries.len()
        invariant
            0 <= k <= entries@.len(),
            forall|p: int| 0 <= p < pool@.len() ==> #[trigger] pool@[p] < k && !used@.contains(entries@[pool@[p] as int].0),
            forall|q: int| 0 <= q < k && !used@.contains(entries@[q].0) ==> #[trigger] pool@.contains(q as usize),
        decreases entries@.len() - k,
    {
        let ghost before = pool@;
        if !holds_uuid(&used, entries[k].0) {
            pool.push(k);
            proof {
                assert(pool@ == before.push(k));
                assert forall|q: int| 0 <= q <= k && !used@.contains(entries@[q].0) implies #[trigger] pool@.contains(q as usize) by {
                    if q < k {
                        assert(before.contains(q as usize));
                        let x = choose|x: int| 0 <= x < before.len() && before[x] == q as usize;
                        assert(pool@[x] == before[x]);
                    } else {
                        assert(pool@[before.len() as int] == q as usize);
                    }
                }
            }
        }
        k = k + 1;
    }
    let ghost mut picks: Seq<u128> = Seq::new(ext.len(), |j: int| 0u128);
    let mut i: usize = 0;
    while i < external.len()
        invariant
            0 <= i <= ext.len(),
            ext == external@,
            idx0 == name_index(*old(uuid_map)),
            ext.len() == m.dom().len(),
            lists_entries(entries@, m),
            picks.len() == ext.len(),
            unmapped@.len() == ext.len(),
            forall|j: int| 0 <= j < ext.len() ==> unmapped@[j] == !idx0.contains_key((#[trigger] ext[j]).key_of()),
            forall|j: int| 0 <= j < ext.len() ==> !#[trigger] mismatched(ext[j], m, idx0),
            forall|u: u128| #[trigger] used@.contains(u) <==> exists|j: int|
                0 <= j < ext.len() && idx0.contains_key((#[trigger] ext[j]).key_of()) && idx0[ext[j].key_of()] == u,
            forall|p: int| 0 <= p < pool@.len() ==> #[trigger] pool@[p] < entries@.len() && !used@.contains(entries@[pool@[p] as int].0),
            forall|q: int| 0 <= q < entries@.len() && !used@.contains(entries@[q].0) ==> #[trigger] pool@.contains(q as usize),
            forall|j: int|
                0 <= j < i && !idx0.contains_key((#[trigger] ext[j]).key_of()) ==> m.contains_key(picks[j])
                    && unclaimed(ext, idx0, picks[j]) && ext[j].fits(m[picks[j]]),
            name_index(*uuid_map) == picks_walk(ext, idx0, picks, i as int),
        decreases ext.len() - i,
    {
        if unmapped[i] {
            let mut found = false;
            let mut p: usize = 0;
            while p < pool.len() && !found
                invariant
                    0 <= p <= pool@.len(),
                    ext == external@,
                    i < ext.len(),
                    lists_entries(entries@, m),
                    picks.len() == ext.len(),
                    !idx0.contains_key(ext[i as int].key_of()),
                    forall|u: u128| #[trigger] used@.contains(u) <==> exists|j: int|
                        0 <= j < ext.len() && idx0.contains_key((#[trigger] ext[j]).key_of()) && idx0[ext[j].key_of()] == u,
                    forall|p2: int| 0 <= p2 < pool@.len() ==> #[trigger] pool@[p2] < entries@.len() && !used@.contains(entries@[pool@[p2] as int].0),
                    !found ==> forall|p2: int| 0 <= p2 < p ==> !ext[i as int].fits(#[trigger] entries@[pool@[p2] as int].1),
                    !found ==> name_index(*uuid_map) == picks_walk(ext, idx0, picks, i as int),
                    found ==> m.contains_key(picks[i as int]) && unclaimed(ext, idx0, picks[i as int])
                        && ext[i as int].fits(m[picks[i as int]]),
                    found ==> name_index(*uuid_map) == picks_walk(ext, idx0, picks, i as int + 1),
                    forall|j: int|
                        0 <= j < i && !idx0.contains_key((#[trigger] ext[j]).key_of()) ==> m.contains_key(picks[j])
                            && unclaimed(ext, idx0, picks[j]) && ext[j].fits(m[picks[j]]),
                decreases pool@.len() - p,
            {
                let q = pool[p];
                if external[i].matches(&entries[q].1) {
                    let u = entries[q].0;
                    let ghost old_picks = picks;
                    name_index_insert(uuid_map, external[i].key(), u);
                    proof {
                        picks = picks.update(i as int, u);
                        lemma_walk_prefix(ext, idx0, old_picks, picks, i as int);
                        assert(m.contains_key(entries@[q as int].0));
                        assert(m.contains_key(u) && m[u] == entries@[q as int].1);
                        assert forall|j: int|
                            0 <= j < ext.len() && idx0.contains_key((#[trigger] ext[j]).key_of()) implies idx0[ext[j].key_of()] != u by {
                            if idx0[ext[j].key_of()] == u {
                                assert(used@.contains(u));
                            }
                        }
                    }
                    found = true;
                }
                p = p + 1;
            }
            if !found {
                proof {
                    assert forall|u: u128| #[trigger] m.contains_key(u) && unclaimed(ext, idx0, u) implies !ext[i as int].fits(m[u]) by {
                        let q = choose|q: int| 0 <= q < entries@.len() && (#[trigger] entries@[q]).0 == u;
                        assert(entries@[q].0 == u);
                        if used@.contains(u) {
                            let j = choose|j: int| 0 <= j < ext.len() && idx0.contains_key((#[trigger] ext[j]).key_of()) && idx0[ext[j].key_of()] == u;
                            assert(idx0.contains_key(ext[j].key_of()));
                        }
                        assert(pool@.contains(q as usize));
                        let p2 = choose|p2: int| 0 <= p2 < pool@.len() && pool@[p2] == q as usize;
                        assert(!ext[i as int].fits(entries@[pool@[p2] as int].1));
                    }
                    assert(!has_fit(ext[i as int], ext, m, idx0));
                    assert(walk_fits(ext, m, idx0, name_index(*uuid_map), picks, i as int));
                    assert(!(exists|j: int| 0 <= j < ext.len() && #[trigger] mismatched(ext[j], m, idx0)));
                }
                return false;
            }
        } else {
            proof {
                assert(picks_walk(ext, idx0, picks, i as int + 1) == picks_walk(ext, idx0, picks, i as int));
            }
        }
        i = i + 1;
    }
    proof {
        assert(walk_fits(ext, m, idx0, name_index(*uuid_map), picks, ext.len() as int));
        assert(!(exists|j: int| 0 <= j < ext.len() && #[trigger] mismatched(ext[j], m, idx0)));
        assert forall|j: int| 0 <= j < ext.len() && !idx0.contains_key((#[trigger] ext[j]).key_of()) implies has_fit(ext[j], ext, m, idx0) by {
            assert(m.contains_key(picks[j]));
        }
    }
    true
}

/// Whether the client's relics are the model's, pointing the identifiers of those not
/// known yet at the relics they are.
pub fn relics_match(
    external: &Vec<external::Relic>,
    internal: &im::HashMap<u128, Relic>,
    uuid_map: &mut im::HashMap<String, u128>,
) -> (res: bool)
    requires
        sets_safe(external@, relic_entries(*internal), name_index(*old(uuid_map))),
    ensures
        res == sets_ok(external@, relic_entries(*internal), name_index(*old(uuid_map))),
        sets_after(external@, relic_entries(*internal), name_index(*old(uuid_map)), name_index(*final(uuid_map))),
{
    let entries = relic_map_entries(internal);
    sets_match(external, &entries, uuid_map, Ghost(relic_entries(*internal)))
}

/// Whether the client's cards are the cards of a map of the model, pointing the
/// identifiers of those not known yet at the cards they are.
fn cards_match(
    external: &Vec<external::Card>,
    internal: &im::HashMap<u128, Card>,
    uuid_map: &mut im::HashMap<String, u128>,
) -> (res: bool)
    requires
        sets_safe(external@, deck_cards(*internal), name_index(*old(uuid_map))),
    ensures
        res == sets_ok(external@, deck_cards(*internal), name_index(*old(uuid_map))),
        sets_after(external@, deck_cards(*internal), name_index(*old(uuid_map)), name_index(*final(uuid_map))),
{
    let entries = deck_entries(internal);
    sets_match(external, &entries, uuid_map, Ghost(deck_cards(*internal)))
}

/// Whether no two buffs of a list share an identifier.
pub open spec fn uuids_distinct(buffs: Seq<Buff>) -> bool {
    forall|i: int, j: int| 0 <= i < j < buffs.len() ==> (#[trigger] buffs[i]).uuid != (#[trigger] buffs[j]).uuid
}

/// The buffs of a list by identifier.
pub open spec fn buff_map(buffs: Seq<Buff>) -> Map<u128, Buff> {
    Map::new(
        |u: u128| exists|i: int| 0 <= i < buffs.len() && (#[trigger] buffs[i]).uuid == u,
        |u: u128| buffs[choose|i: int| 0 <= i < buffs.len() && (#[trigger] buffs[i]).uuid == u],
    )
}

/// A list of buffs whose identifiers differ lists its map of buffs by identifier.
proof fn lemma_buff_entries(buffs: Seq<Buff>)
    requires
        uuids_distinct(buffs),
    ensures
        lists_entries(buffs.map_values(|b: Buff| (b.uuid, b)), buff_map(buffs)),
{
    let items = buffs.map_values(|b: Buff| (b.uuid, b));
    let keys = buffs.map_values(|b: Buff| b.uuid);
    let m = buff_map(buffs);
    assert(keys.no_duplicates()) by {
        assert forall|i: int, j: int| 0 <= i < keys.len() && 0 <= j < keys.len() && i != j implies keys[i] != keys[j] by {
            if i < j {
                assert(buffs[i].uuid != buffs[j].uuid);
            } else {
                assert(buffs[j].uuid != buffs[i].uuid);
            }
        }
    }
    keys.unique_seq_to_set();
    assert(m.dom() =~= keys.to_set()) by {
        assert forall|u: u128| m.dom().contains(u) implies keys.to_set().contains(u) by {
            let i = choose|i: int| 0 <= i < buffs.len() && (#[trigger] buffs[i]).uuid == u;
            assert(keys[i] == u);
        }
        assert forall|u: u128| keys.to_set().contains(u) implies m.dom().contains(u) by {
            let i = choose|i: int| 0 <= i < keys.len() && keys[i] == u;
            assert(buffs[i].uuid == u);
        }
    }
    assert(m.dom().finite()) by {
        vstd::seq_lib::seq_to_set_is_finite(keys);
    }
    assert forall|i: int| 0 <= i < items.len() implies #[trigger] m.contains_key(items[i].0) && m[items[i].0] == items[i].1 by {
        assert(buffs[i].uuid == items[i].0);
        let j = choose|j: int| 0 <= j < buffs.len() && (#[trigger] buffs[j]).uuid == items[i].0;
        if j != i {
            if j < i {
                assert(buffs[j].uuid != buffs[i].uuid);
            } else {
                assert(buffs[i].uuid != buffs[j].uuid);
            }
        }
    }
    assert forall|i: int, j: int| 0 <= i < j < items.len() implies (#[trigger] items[i]).0 != (#[trigger] items[j]).0 by {
        assert(buffs[i].uuid != buffs[j].uuid);
    }
    assert forall|k: u128| #[trigger] m.contains_key(k) implies exists|i: int| 0 <= i < items.len() && (#[trigger] items[i]).0 == k by {
        let i = choose|i: int| 0 <= i < buffs.len() && (#[trigger] buffs[i]).uuid == k;
        assert(items[i].0 == k);
    }
}

/// Whether the client's powers of a creature are the buffs of the model's creature,
/// pointing the identifiers of those not known yet at the buffs they are.
fn buffs_match(
    external: &Vec<external::Power>,
    internal: &Vec<Buff>,
    uuid_map: &mut im::HashMap<String, u128>,
) -> (res: bool)
    requires
        uuids_distinct(internal@),
        sets_safe(external@, buff_map(internal@), name_index(*old(uuid_map))),
    ensures
        res == sets_ok(external@, buff_map(internal@), name_index(*old(uuid_map))),
        sets_after(external@, buff_map(internal@), name_index(*old(uuid_map)), name_index(*final(uuid_map))),
{
    let mut entries: Vec<(u128, Buff)> = Vec::new();
    let mut i: usize = 0;
    while i < internal.len()
        invariant
            0 <= i <= internal@.len(),
            entries@ == internal@.take(i as int).map_values(|b: Buff| (b.uuid, b)),
        decreases internal@.len() - i,
    {
        let b = internal[i];
        entries.push((b.uuid, b));
        proof {
            assert(internal@.take(i as int + 1) == internal@.take(i as int).push(b));
        }
        i = i + 1;
    }
    proof {
        assert(internal@.take(internal@.len() as int) == internal@);
        lemma_buff_entries(internal@);
    }
    sets_match(external, &entries, uuid_map, Ghost(buff_map(internal@)))
}

/// Whether the client's class is the model's; the client must name one of the four
/// classes.
fn class_matches(external: &external::PlayerClass, internal: Class) -> (res: bool)
    requires
        *external != external::PlayerClass::Other,
    ensures
        res == (internal == external::class_of(*external)),
{
    internal == external::convert_class(external)
}

/// The chest of the model that a chest of the client names.
pub open spec fn chest_of(chest: external::ChestType) -> ChestType {
    match chest {
        external::ChestType::Small => ChestType::Small,
        external::ChestType::Medium => ChestType::Medium,
        external::ChestType::Large => ChestType::Large,
        _ => ChestType::Boss,
    }
}

/// Whether the client's chest is of the model's kind; the client must name a kind.
fn chest_matches(external: &external::Chest, internal: ChestType) -> (res: bool)
    requires
        external.chest_type != external::ChestType::Unknown,
    ensures
        res == (internal == chest_of(external.chest_type)),
{
    let kind = match external.chest_type {
        external::ChestType::Small => ChestType::Small,
        external::ChestType::Medium => ChestType::Medium,
        external::ChestType::Large => ChestType::Large,
        _ => ChestType::Boss,
    };
    internal == kind
}

/// Whether the client's intent is the model's; the client's intent must be one that the
/// model has.
fn intent_matches(external: &external::Intent, internal: Intent) -> (res: bool)
    requires
        *external != external::Intent::Debug && *external != external::Intent::Magic,
    ensures
        res == (internal == external::intent_of(*external)),
{
    internal == external::convert_intent(external)
}

/// Whether an orb of the client is an orb of the model: the same kind and evoke amount.
pub open spec fn orb_fits(external: external::OrbType, internal: Orb) -> bool {
    internal.base == external::orb_of(external.name@) && external.evoke_amount as u16 == internal.n
}

/// Whether comparing the orbs runs without failing: where the counts agree, an orb
/// whose kind the model does not know is only reached after an orb that differs.
pub open spec fn orbs_safe(external: Seq<external::OrbType>, internal: Seq<Orb>) -> bool {
    external.len() == internal.len() ==> forall|i: int|
        0 <= i < external.len() && !external::is_known_orb((#[trigger] external[i]).name@) ==> exists|j: int|
            0 <= j < i && !orb_fits(#[trigger] external[j], internal[j])
}

/// Whether the client's orbs are the model's, in order.
pub open spec fn orbs_ok(external: Seq<external::OrbType>, internal: Seq<Orb>) -> bool {
    external.len() == internal.len() && forall|i: int| 0 <= i < external.len() ==> orb_fits(#[trigger] external[i], internal[i])
}

/// Whether the client's orbs are the model's, in order.
fn orbs_match(external: &Vec<external::OrbType>, internal: &im::Vector<Orb>) -> (res: bool)
    requires
        orbs_safe(external@, orb_items(*internal)),
    ensures
        res == orbs_ok(external@, orb_items(*internal)),
{
    if external.len() != orb_count(internal) {
        return false;
    }
    let mut idx: usize = 0;
    while idx < external.len()
        invariant
            0 <= idx <= external@.len(),
            external@.len() == orb_items(*internal).len(),
            orbs_safe(external@, orb_items(*internal)),
            forall|j: int| 0 <= j < idx ==> orb_fits(#[trigger] external@[j], orb_items(*internal)[j]),
        decreases external@.len() - idx,
    {
        let orb = orb_at(internal, idx);
        let e = &external[idx];
        proof {
            if !external::is_known_orb(e.name@) {
                let j = choose|j: int| 0 <= j < idx && !orb_fits(#[trigger] external@[j], orb_items(*internal)[j]);
                assert(orb_fits(external@[j], orb_items(*internal)[j]));
            }
        }
        let base = external::orb_type_by_name(e.name.as_str());
        if !(orb.base == base && #[verifier::truncate] (e.evoke_amount as u16) == orb.n) {
            return false;
        }
        idx = idx + 1;
    }
    true
}

/// The name the client gives a potion slot: the potion's, or `Potion Slot` when empty.
pub open spec fn slot_name(slot: Option<&'static BasePotion>) -> Seq<char> {
    match slot {
        None => "Potion Slot"@,
        Some(p) => p.name@,
    }
}

/// Whether the client's potions are the model's slots, in order.
pub open spec fn potions_ok(external: Seq<external::Potion>, internal: Seq<Option<&'static BasePotion>>) -> bool {
    external.len() == internal.len() && forall|i: int|
        0 <= i < external.len() ==> slot_name(#[trigger] internal[i]) == external[i].name@
}

/// Whether the client's potions are the model's slots, in order.
fn potions_match(external: &Vec<external::Potion>, internal: &im::Vector<Option<&'static BasePotion>>) -> (res: bool)
    ensures
        res == potions_ok(external@, slot_items(*internal)),
{
    let slots = slots_items(internal);
    if external.len() != slots.len() {
        return false;
    }
    let mut idx: usize = 0;
    while idx < external.len()
        invariant
            0 <= idx <= external@.len(),
            external@.len() == slots@.len(),
            slots@ == slot_items(*internal),
            forall|j: int| 0 <= j < idx ==> slot_name(#[trigger] slots@[j]) == external@[j].name@,
        decreases external@.len() - idx,
    {
        let name = match slots[idx] {
            None => "Potion Slot",
            Some(p) => p.name.as_str(),
        };
        if !str_eq(name, external[idx].name.as_str()) {
            return false;
        }
        idx = idx + 1;
    }
    true
}

/// Whether the label is one of the choices.
pub open spec fn offers(choices: Seq<String>, label: Seq<char>) -> bool {
    exists|j: int| 0 <= j < choices.len() && (#[trigger] choices[j])@ == label
}

/// Whether an event of the client is the model's: the same name, and each option the
/// client shows is a choice the model has.
pub open spec fn events_ok(external: external::Event, internal: EventState) -> bool {
    &&& external.event_name@ == internal.base.name@
    &&& forall|i: int| 0 <= i < external.options@.len() ==> offers(internal.available_choices@, (#[trigger] external.options@[i]).label@)
}

/// Whether the label is one of the choices.
fn offers_choice(choices: &Vec<String>, label: &String) -> (res: bool)
    ensures
        res == offers(choices@, label@),
{
    let mut j: usize = 0;
    while j < choices.len()
        invariant
            0 <= j <= choices@.len(),
            forall|k: int| 0 <= k < j ==> (#[trigger] choices@[k])@ != label@,
        decreases choices@.len() - j,
    {
        if str_eq(choices[j].as_str(), label.as_str()) {
            return true;
        }
        j = j + 1;
    }
    false
}

/// Whether an event of the client is the model's.
fn events_match(external: &external::Event, internal: &EventState) -> (res: bool)
    ensures
        res == events_ok(*external, *internal),
{
    if !str_eq(external.event_name.as_str(), internal.base.name.as_str()) {
        return false;
    }
    let mut i: usize = 0;
    while i < external.options.len()
        invariant
            0 <= i <= external.options@.len(),
            external.event_name@ == internal.base.name@,
            forall|k: int| 0 <= k < i ==> offers(internal.available_choices@, (#[trigger] external.options@[k]).label@),
        decreases external.options@.len() - i,
    {
        if !offers_choice(&internal.available_choices, &external.options[i].label) {
            return false;
        }
        i = i + 1;
    }
    true
}

/// Whether a reward of the client is a reward of the model: a card choice, the emerald
/// key, gold of the amount (stolen gold too), or the potion, relic or relic linked to
/// the sapphire key of the same name.
pub open spec fn reward_fits(external: external::RewardType, internal: Reward) -> bool {
    match external {
        external::RewardType::Card => internal is CardChoice,
        external::RewardType::EmeraldKey => internal is EmeraldKey,
        external::RewardType::Gold { gold } => internal == Reward::Gold(gold as u16),
        external::RewardType::StolenGold { gold } => internal == Reward::Gold(gold as u16),
        external::RewardType::Potion { potion } => internal matches Reward::Potion(p) && potion.name@ == p.name@,
        external::RewardType::Relic { relic } => internal matches Reward::Relic(r) && relic.name@ == r.name@,
        external::RewardType::SapphireKey { link } => internal matches Reward::SapphireLinkedRelic(r) && link.name@ == r.name@,
    }
}

/// Whether a reward of the client is a reward of the model.
fn reward_matches(external: &external::RewardType, internal: &Reward) -> (res: bool)
    ensures
        res == reward_fits(*external, *internal),
{
    match external {
        external::RewardType::Card => matches!(internal, Reward::CardChoice(..)),
        external::RewardType::EmeraldKey => matches!(internal, Reward::EmeraldKey),
        external::RewardType::Gold { gold } | external::RewardType::StolenGold { gold } => match internal {
            Reward::Gold(g) => *g == #[verifier::truncate] (*gold as u16),
            _ => false,
        },
        external::RewardType::Potion { potion } => match internal {
            Reward::Potion(p) => str_eq(potion.name.as_str(), p.name.as_str()),
            _ => false,
        },
        external::RewardType::Relic { relic } => match internal {
            Reward::Relic(r) => str_eq(relic.name.as_str(), r.name.as_str()),
            _ => false,
        },
        external::RewardType::SapphireKey { link } => match internal {
            Reward::SapphireLinkedRelic(r) => str_eq(link.name.as_str(), r.name.as_str()),
            _ => false,
        },
    }
}

/// Whether the reward of the client is one of the model's rewards.
pub open spec fn has_reward(internal: Seq<Reward>, external: external::RewardType) -> bool {
    exists|j: int| 0 <= j < internal.len() && reward_fits(external, #[trigger] internal[j])
}

/// Whether each reward the client shows is one of the model's rewards.
pub open spec fn rewards_ok(external: Seq<external::RewardType>, internal: Seq<Reward>) -> bool {
    forall|i: int| 0 <= i < external.len() ==> has_reward(internal, #[trigger] external[i])
}

/// Whether each reward the client shows is one of the model's rewards.
fn rewards_match(external: &Vec<external::RewardType>, internal: &im::Vector<Reward>) -> (res: bool)
    ensures
        res == rewards_ok(external@, reward_items(*internal)),
{
    let n = rewards_len(internal);
    let mut i: usize = 0;
    while i < external.len()
        invariant
            0 <= i <= external@.len(),
            n == reward_items(*internal).len(),
            forall|k: int| 0 <= k < i ==> has_reward(reward_items(*internal), #[trigger] external@[k]),
        decreases external@.len() - i,
    {
        let mut found = false;
        let mut j: usize = 0;
        while j < n && !found
            invariant
                0 <= j <= n,
                i < external@.len(),
                n == reward_items(*internal).len(),
                found ==> has_reward(reward_items(*internal), external@[i as int]),
                !found ==> forall|j2: int| 0 <= j2 < j ==> !reward_fits(external@[i as int], #[trigger] reward_items(*internal)[j2]),
            decreases n - j,
        {
            let r = reward_at(internal, j);
            if reward_matches(&external[i], &r) {
                found = true;
            }
            j = j + 1;
        }
        if !found {
            assert(!has_reward(reward_items(*internal), external@[i as int]));
            return false;
        }
        i = i + 1;
    }
    true
}

/// Whether a list names each key of a map once.
pub open spec fn lists_keys<V>(keys: Seq<u128>, m: Map<u128, V>) -> bool {
    &&& keys.len() == m.dom().len()
    &&& keys.no_duplicates()
    &&& forall|i: int| 0 <= i < keys.len() ==> m.contains_key(#[trigger] keys[i])
    &&& forall|k: u128| #[trigger] m.contains_key(k) ==> keys.contains(k)
}

/// Whether a monster of the client shows what a monster of the model holds: the same hit
/// points, maximum, block and name, and gone exactly when it cannot be targeted.
pub open spec fn monster_shows(external: external::Monster, internal: Monster) -> bool {
    &&& external.current_hp as u16 == internal.creature.hp.amount
    &&& external.max_hp as u16 == internal.creature.hp.max
    &&& external.block as u16 == internal.creature.block
    &&& external.is_gone != internal.targetable
    &&& external.name@ == internal.base.name@
}

/// Whether a monster of the client is a monster of the model, its powers matched at the
/// map of identifiers `idx`.
pub open spec fn monster_fits(external: external::Monster, internal: Monster, idx: Map<Seq<char>, u128>) -> bool {
    &&& sets_ok(external.powers@, buff_map(internal.creature.buffs@), idx)
    &&& monster_shows(external, internal)
    &&& internal.intent == external::intent_of(external.intent)
}

/// Whether checking the monsters of the model, in the order of `keys`, each against the
/// client's monster at its position, runs without failing from the map of identifiers
/// `idx`, whatever the matching of powers picks: each position is one of the client's
/// monsters, the buffs of each monster have distinct identifiers and their powers can be
/// matched, and an intent that the model lacks is not reached.
pub open spec fn walk_safe(keys: Seq<u128>, external: Seq<external::Monster>, m: Map<u128, Monster>, idx: Map<Seq<char>, u128>) -> bool
    decreases keys.len(),
{
    if keys.len() == 0 {
        true
    } else {
        let mon = m[keys[0]];
        let x = external[mon.position as int];
        &&& mon.position < external.len()
        &&& uuids_distinct(mon.creature.buffs@)
        &&& sets_safe(x.powers@, buff_map(mon.creature.buffs@), idx)
        &&& sets_ok(x.powers@, buff_map(mon.creature.buffs@), idx) && monster_shows(x, mon)
            ==> x.intent != external::Intent::Debug && x.intent != external::Intent::Magic
        &&& forall|idx1: Map<Seq<char>, u128>|
            #[trigger] sets_after(x.powers@, buff_map(mon.creature.buffs@), idx, idx1) && monster_fits(x, mon, idx)
                ==> walk_safe(keys.drop_first(), external, m, idx1)
    }
}

/// Whether checking the monsters in the order of `keys` from the map of identifiers
/// `idx` can end with the map `idx2` and the answer `res`: it stops with false at the
/// first monster that is not the client's monster at its position.
pub open spec fn walk_outcome(
    keys: Seq<u128>,
    external: Seq<external::Monster>,
    m: Map<u128, Monster>,
    idx: Map<Seq<char>, u128>,
    idx2: Map<Seq<char>, u128>,
    res: bool,
) -> bool
    decreases keys.len(),
{
    if keys.len() == 0 {
        idx2 == idx && res
    } else {
        let mon = m[keys[0]];
        let x = external[mon.position as int];
        exists|idx1: Map<Seq<char>, u128>|
            #[trigger] sets_after(x.powers@, buff_map(mon.creature.buffs@), idx, idx1) && if monster_fits(x, mon, idx) {
                walk_outcome(keys.drop_first(), external, m, idx1, idx2, res)
            } else {
                idx2 == idx1 && !res
            }
    }
}

/// Whether checking the client's monsters can run without failing: where the counts
/// agree, in every order of the model's monsters.
pub open spec fn monsters_safe(external: Seq<external::Monster>, m: Map<u128, Monster>, idx: Map<Seq<char>, u128>) -> bool {
    external.len() == m.dom().len() ==> forall|keys: Seq<u128>| #[trigger] lists_keys(keys, m) ==> walk_safe(keys, external, m, idx)
}

/// Whether checking the client's monsters can end with the map of identifiers `idx2`
/// and the answer `res`: false where the counts differ, else the check in some order of
/// the model's monsters, which the model's map decides and which is not stated.
pub open spec fn monsters_outcome(
    external: Seq<external::Monster>,
    m: Map<u128, Monster>,
    idx: Map<Seq<char>, u128>,
    idx2: Map<Seq<char>, u128>,
    res: bool,
) -> bool {
    if external.len() != m.dom().len() {
        idx2 == idx && !res
    } else {
        exists|keys: Seq<u128>| #[trigger] lists_keys(keys, m) && walk_outcome(keys, external, m, idx, idx2, res)
    }
}

/// Whether the client's monsters are the model's: as many, and each monster of the
/// model, taken in the order of its map, is the client's monster at its position.
fn monsters_match(
    external: &Vec<external::Monster>,
    internal: &im::HashMap<u128, Monster>,
    uuid_map: &mut im::HashMap<String, u128>,
) -> (res: bool)
    requires
        monsters_safe(external@, battle_monsters(*internal), name_index(*old(uuid_map))),
    ensures
        monsters_outcome(external@, battle_monsters(*internal), name_index(*old(uuid_map)), name_index(*final(uuid_map)), res),
{
    let ghost m = battle_monsters(*internal);
    let ghost idx0 = name_index(*uuid_map);
    if external.len() != battle_monster_count(internal) {
        return false;
    }
    let listing = monster_listing(internal);
    let ghost keys = listing@.map_values(|t: (u128, u128, &'static BaseMonster, bool)| t.0);
    proof {
        assert(lists_keys(keys, m)) by {
            assert forall|i: int, j: int| 0 <= i < keys.len() && 0 <= j < keys.len() && i != j implies keys[i] != keys[j] by {
                if i < j {
                    assert(listing@[i].0 != listing@[j].0);
                } else {
                    assert(listing@[j].0 != listing@[i].0);
                }
            }
            assert forall|i: int| 0 <= i < keys.len() implies m.contains_key(#[trigger] keys[i]) by {
                assert(m.contains_key(listing@[i].0));
            }
            assert forall|k: u128| #[trigger] m.contains_key(k) implies keys.contains(k) by {
                let i = choose|i: int| 0 <= i < listing@.len() && (#[trigger] listing@[i]).0 == k;
                assert(keys[i] == k);
            }
        }
        assert(keys.subrange(0, keys.len() as int) =~= keys);
    }
    let mut i: usize = 0;
    while i < listing.len()
        invariant
            0 <= i <= listing@.len(),
            keys.len() == listing@.len(),
            forall|j: int| 0 <= j < listing@.len() ==> keys[j] == (#[trigger] listing@[j]).0,
            lists_keys(keys, m),
            external@.len() == m.dom().len(),
            m == battle_monsters(*internal),
            idx0 == name_index(*old(uuid_map)),
            walk_safe(keys.subrange(i as int, keys.len() as int), external@, m, name_index(*uuid_map)),
            forall|idx2: Map<Seq<char>, u128>, r: bool|
                #[trigger] walk_outcome(keys.subrange(i as int, keys.len() as int), external@, m, name_index(*uuid_map), idx2, r)
                    ==> walk_outcome(keys, external@, m, idx0, idx2, r),
        decreases listing@.len() - i,
    {
        let ghost rest = keys.subrange(i as int, keys.len() as int);
        let ghost before = name_index(*uuid_map);
        proof {
            assert(rest[0] == keys[i as int]);
            assert(rest.drop_first() =~= keys.subrange(i as int + 1, keys.len() as int));
        }
        let key = listing[i].0;
        let mon = match battle_monster_get(internal, key) {
            Some(mon) => mon,
            None => {
                proof {
                    assert(m.contains_key(keys[i as int]));
                }
                return vstd::pervasive::unreached();
            },
        };
        let x = &external[mon.position];
        let ok = buffs_match(&x.powers, &mon.creature.buffs, uuid_map)
            && #[verifier::truncate] (x.current_hp as u16) == mon.creature.hp.amount
            && #[verifier::truncate] (x.max_hp as u16) == mon.creature.hp.max
            && #[verifier::truncate] (x.block as u16) == mon.creature.block
            && x.is_gone != mon.targetable
            && str_eq(x.name.as_str(), mon.base.name.as_str())
            && intent_matches(&x.intent, mon.intent);
        let ghost after = name_index(*uuid_map);
        if !ok {
            proof {
                assert(!monster_fits(*x, *mon, before));
                assert(sets_after(x.powers@, buff_map(mon.creature.buffs@), before, after));
                assert(walk_outcome(rest, external@, m, before, after, false));
                assert(walk_outcome(keys, external@, m, idx0, after, false));
                assert(lists_keys(keys, m));
            }
            return false;
        }
        proof {
            assert(monster_fits(*x, *mon, before));
            assert forall|idx2: Map<Seq<char>, u128>, r: bool|
                #[trigger] walk_outcome(keys.subrange(i as int + 1, keys.len() as int), external@, m, after, idx2, r)
                    implies walk_outcome(keys, external@, m, idx0, idx2, r) by {
                assert(sets_after(x.powers@, buff_map(mon.creature.buffs@), before, after));
                assert(walk_outcome(rest, external@, m, before, idx2, r));
            }
        }
        i = i + 1;
    }
    proof {
        assert(keys.subrange(i as int, keys.len() as int).len() == 0);
        assert(walk_outcome(keys.subrange(i as int, keys.len() as int), external@, m, name_index(*uuid_map), name_index(*uuid_map), true));
        assert(walk_outcome(keys, external@, m, idx0, name_index(*uuid_map), true));
    }
    true
}

/// The cards of a pile: each card of the battle under an identifier that the pile holds.
pub open spec fn pile_cards(pile: Set<u128>, cards: Map<u128, Card>) -> Map<u128, Card> {
    Map::new(|u: u128| pile.contains(u), |u: u128| cards[u])
}

/// Whether each identifier of a pile is a card of the battle.
pub open spec fn pile_in(pile: Set<u128>, cards: Map<u128, Card>) -> bool {
    forall|u: u128| #[trigger] pile.contains(u) ==> cards.contains_key(u)
}

/// The map of the cards of the battle under the given identifiers, each of which must be
/// a card of the battle.
fn pile_map(ids: &Vec<u128>, cards: &im::HashMap<u128, Card>) -> (res: im::HashMap<u128, Card>)
    requires
        pile_in(ids@.to_set(), deck_cards(*cards)),
    ensures
        deck_cards(res) == pile_cards(ids@.to_set(), deck_cards(*cards)),
{
    let mut res = deck_new();
    let mut i: usize = 0;
    while i < ids.len()
        invariant
            0 <= i <= ids@.len(),
            pile_in(ids@.to_set(), deck_cards(*cards)),
            deck_cards(res) =~= pile_cards(ids@.take(i as int).to_set(), deck_cards(*cards)),
        decreases ids@.len() - i,
    {
        let u = ids[i];
        proof {
            assert(ids@.to_set().contains(u));
        }
        match deck_get(cards, u) {
            Some(card) => {
                let ghost before = deck_cards(res);
                deck_insert(&mut res, u, card);
                proof {
                    assert(ids@.take(i as int + 1) == ids@.take(i as int).push(u));
                    ids@.take(i as int).lemma_push_to_set_commute(u);
                    assert(ids@.take(i as int + 1).to_set() =~= ids@.take(i as int).to_set().insert(u));
                    assert(deck_cards(res) =~= pile_cards(ids@.take(i as int + 1).to_set(), deck_cards(*cards)));
                }
            },
            None => {
                return vstd::pervasive::unreached();
            },
        }
        i = i + 1;
    }
    proof {
        assert(ids@.take(ids@.len() as int) == ids@);
    }
    res
}

/// The cards of the battle's hand.
pub open spec fn hand_cards(b: BattleState) -> Map<u128, Card> {
    pile_cards(uuid_set(b.hand), deck_cards(b.cards))
}

/// The cards of the battle's draw pile.
pub open spec fn draw_cards(b: BattleState) -> Map<u128, Card> {
    pile_cards(uuid_set(b.draw), deck_cards(b.cards))
}

/// The cards of the battle's discard pile.
pub open spec fn discard_cards(b: BattleState) -> Map<u128, Card> {
    pile_cards(uuid_seq(b.discard).to_set(), deck_cards(b.cards))
}

/// The cards of the battle's exhaust pile.
pub open spec fn exhaust_cards(b: BattleState) -> Map<u128, Card> {
    pile_cards(uuid_set(b.exhaust), deck_cards(b.cards))
}

/// Whether the checks of a battle from its monsters on run without failing from the
/// map of identifiers `idx`.
pub open spec fn monsters_on_safe(e: external::CombatState, b: BattleState, idx: Map<Seq<char>, u128>) -> bool {
    &&& monsters_safe(e.monsters@, battle_monsters(b.monsters), idx)
    &&& forall|idx1: Map<Seq<char>, u128>|
        #[trigger] monsters_outcome(e.monsters@, battle_monsters(b.monsters), idx, idx1, true) && e.player.energy as u8 == b.energy
            ==> orbs_safe(e.player.orbs@, orb_items(b.orbs))
}

/// What the checks of a battle from its monsters on can end with: the monsters, then the
/// energy and the orbs.
pub open spec fn monsters_on(e: external::CombatState, b: BattleState, idx: Map<Seq<char>, u128>, idx2: Map<Seq<char>, u128>, res: bool) -> bool {
    exists|r: bool|
        #[trigger] monsters_outcome(e.monsters@, battle_monsters(b.monsters), idx, idx2, r) && res == (r && e.player.energy as u8
            == b.energy && orbs_ok(e.player.orbs@, orb_items(b.orbs)))
}

/// Whether the checks of a battle from its exhaust pile on run without failing.
pub open spec fn exhaust_on_safe(e: external::CombatState, b: BattleState, idx: Map<Seq<char>, u128>) -> bool {
    &&& pile_in(uuid_set(b.exhaust), deck_cards(b.cards))
    &&& sets_safe(e.exhaust_pile@, exhaust_cards(b), idx)
    &&& forall|idx1: Map<Seq<char>, u128>|
        #[trigger] sets_after(e.exhaust_pile@, exhaust_cards(b), idx, idx1) && sets_ok(e.exhaust_pile@, exhaust_cards(b), idx)
            && e.cards_discarded_this_turn as u8 == b.discard_count ==> monsters_on_safe(e, b, idx1)
}

/// What the checks of a battle from its exhaust pile on can end with: the exhaust pile,
/// the count of discarded cards, then the monsters on.
pub open spec fn exhaust_on(e: external::CombatState, b: BattleState, idx: Map<Seq<char>, u128>, idx2: Map<Seq<char>, u128>, res: bool) -> bool {
    exists|idx1: Map<Seq<char>, u128>|
        #[trigger] sets_after(e.exhaust_pile@, exhaust_cards(b), idx, idx1) && if sets_ok(e.exhaust_pile@, exhaust_cards(b), idx)
            && e.cards_discarded_this_turn as u8 == b.discard_count {
            monsters_on(e, b, idx1, idx2, res)
        } else {
            idx2 == idx1 && !res
        }
}

/// Whether the checks of a battle from its discard pile on run without failing.
pub open spec fn discard_on_safe(e: external::CombatState, b: BattleState, idx: Map<Seq<char>, u128>) -> bool {
    &&& pile_in(uuid_seq(b.discard).to_set(), deck_cards(b.cards))
    &&& sets_safe(e.discard_pile@, discard_cards(b), idx)
    &&& forall|idx1: Map<Seq<char>, u128>|
        #[trigger] sets_after(e.discard_pile@, discard_cards(b), idx, idx1) && sets_ok(e.discard_pile@, discard_cards(b), idx)
            ==> exhaust_on_safe(e, b, idx1)
}

/// What the checks of a battle from its discard pile on can end with.
pub open spec fn discard_on(e: external::CombatState, b: BattleState, idx: Map<Seq<char>, u128>, idx2: Map<Seq<char>, u128>, res: bool) -> bool {
    exists|idx1: Map<Seq<char>, u128>|
        #[trigger] sets_after(e.discard_pile@, discard_cards(b), idx, idx1) && if sets_ok(e.discard_pile@, discard_cards(b), idx) {
            exhaust_on(e, b, idx1, idx2, res)
        } else {
            idx2 == idx1 && !res
        }
}

/// Whether the checks of a battle from its draw pile on run without failing.
pub open spec fn draw_on_safe(e: external::CombatState, b: BattleState, idx: Map<Seq<char>, u128>) -> bool {
    &&& pile_in(uuid_set(b.draw), deck_cards(b.cards))
    &&& sets_safe(e.draw_pile@, draw_cards(b), idx)
    &&& forall|idx1: Map<Seq<char>, u128>|
        #[trigger] sets_after(e.draw_pile@, draw_cards(b), idx, idx1) && sets_ok(e.draw_pile@, draw_cards(b), idx)
            ==> discard_on_safe(e, b, idx1)
}

/// What the checks of a battle from its draw pile on can end with.
pub open spec fn draw_on(e: external::CombatState, b: BattleState, idx: Map<Seq<char>, u128>, idx2: Map<Seq<char>, u128>, res: bool) -> bool {
    exists|idx1: Map<Seq<char>, u128>|
        #[trigger] sets_after(e.draw_pile@, draw_cards(b), idx, idx1) && if sets_ok(e.draw_pile@, draw_cards(b), idx) {
            discard_on(e, b, idx1, idx2, res)
        } else {
            idx2 == idx1 && !res
        }
}

/// Whether the checks of a battle from its hand on run without failing.
pub open spec fn hand_on_safe(e: external::CombatState, b: BattleState, idx: Map<Seq<char>, u128>) -> bool {
    &&& pile_in(uuid_set(b.hand), deck_cards(b.cards))
    &&& sets_safe(e.hand@, hand_cards(b), idx)
    &&& forall|idx1: Map<Seq<char>, u128>|
        #[trigger] sets_after(e.hand@, hand_cards(b), idx, idx1) && sets_ok(e.hand@, hand_cards(b), idx)
            ==> draw_on_safe(e, b, idx1)
}

/// What the checks of a battle from its hand on can end with.
pub open spec fn hand_on(e: external::CombatState, b: BattleState, idx: Map<Seq<char>, u128>, idx2: Map<Seq<char>, u128>, res: bool) -> bool {
    exists|idx1: Map<Seq<char>, u128>|
        #[trigger] sets_after(e.hand@, hand_cards(b), idx, idx1) && if sets_ok(e.hand@, hand_cards(b), idx) {
            draw_on(e, b, idx1, idx2, res)
        } else {
            idx2 == idx1 && !res
        }
}

/// Whether comparing a battle of the client with the model's runs without failing from
/// the map of identifiers `idx`, whatever the matching picks: the player's buffs have
/// distinct identifiers and each pile the checks reach holds cards of the battle, and no
/// check reaches an item that it cannot compare.
pub open spec fn battle_safe(e: external::CombatState, b: BattleState, idx: Map<Seq<char>, u128>) -> bool {
    &&& uuids_distinct(b.player.buffs@)
    &&& sets_safe(e.player.powers@, buff_map(b.player.buffs@), idx)
    &&& forall|idx1: Map<Seq<char>, u128>|
        #[trigger] sets_after(e.player.powers@, buff_map(b.player.buffs@), idx, idx1) && sets_ok(e.player.powers@, buff_map(b.player.buffs@), idx)
            && e.player.block as u16 == b.player.block ==> hand_on_safe(e, b, idx1)
}

/// What comparing a battle of the client with the model's can end with, from the map of
/// identifiers `idx` to `idx2`: in turn the player's powers and block, the hand, draw,
/// discard and exhaust piles, the count of cards discarded this turn, the monsters, the
/// energy and the orbs; false at the first that differs.
pub open spec fn battle_outcome(e: external::CombatState, b: BattleState, idx: Map<Seq<char>, u128>, idx2: Map<Seq<char>, u128>, res: bool) -> bool {
    exists|idx1: Map<Seq<char>, u128>|
        #[trigger] sets_after(e.player.powers@, buff_map(b.player.buffs@), idx, idx1) && if sets_ok(e.player.powers@, buff_map(b.player.buffs@), idx)
            && e.player.block as u16 == b.player.block {
            hand_on(e, b, idx1, idx2, res)
        } else {
            idx2 == idx1 && !res
        }
}

/// Whether a battle of the client is the model's battle, pointing the identifiers of the
/// cards and powers not known yet at those they are.
pub fn battle_state_matches(
    external: &external::CombatState,
    internal: &BattleState,
    uuid_map: &mut im::HashMap<String, u128>,
) -> (res: bool)
    requires
        battle_safe(*external, *internal, name_index(*old(uuid_map))),
    ensures
        battle_outcome(*external, *internal, name_index(*old(uuid_map)), name_index(*final(uuid_map)), res),
{
    let ghost e = *external;
    let ghost b = *internal;
    let ghost m0 = name_index(*uuid_map);
    let r = buffs_match(&external.player.powers, &internal.player.buffs, uuid_map);
    let ghost m1 = name_index(*uuid_map);
    if !(r && #[verifier::truncate] (external.player.block as u16) == internal.player.block) {
        assert(sets_after(e.player.powers@, buff_map(b.player.buffs@), m0, m1));
        return false;
    }
    assert(sets_after(e.player.powers@, buff_map(b.player.buffs@), m0, m1));
    assert(hand_on_safe(e, b, m1));
    let ids = uuid_set_items(&internal.hand);
    let hand = pile_map(&ids, &internal.cards);
    let r = cards_match(&external.hand, &hand, uuid_map);
    let ghost m2 = name_index(*uuid_map);
    assert(sets_after(e.hand@, hand_cards(b), m1, m2));
    if !r {
        return false;
    }
    assert(draw_on_safe(e, b, m2));
    let ids = uuid_set_items(&internal.draw);
    let draw = pile_map(&ids, &internal.cards);
    let r = cards_match(&external.draw_pile, &draw, uuid_map);
    let ghost m3 = name_index(*uuid_map);
    assert(sets_after(e.draw_pile@, draw_cards(b), m2, m3));
    if !r {
        return false;
    }
    assert(discard_on_safe(e, b, m3));
    let ids = uuid_seq_items(&internal.discard);
    let discard = pile_map(&ids, &internal.cards);
    let r = cards_match(&external.discard_pile, &discard, uuid_map);
    let ghost m4 = name_index(*uuid_map);
    assert(sets_after(e.discard_pile@, discard_cards(b), m3, m4));
    if !r {
        return false;
    }
    assert(exhaust_on_safe(e, b, m4));
    let ids = uuid_set_items(&internal.exhaust);
    let exhaust = pile_map(&ids, &internal.cards);
    let r = cards_match(&external.exhaust_pile, &exhaust, uuid_map);
    let ghost m5 = name_index(*uuid_map);
    assert(sets_after(e.exhaust_pile@, exhaust_cards(b), m4, m5));
    if !(r && #[verifier::truncate] (external.cards_discarded_this_turn as u8) == internal.discard_count) {
        return false;
    }
    assert(monsters_on_safe(e, b, m5));
    let r = monsters_match(&external.monsters, &internal.monsters, uuid_map);
    let ghost m6 = name_index(*uuid_map);
    assert(monsters_outcome(e.monsters@, battle_monsters(b.monsters), m5, m6, r));
    if !(r && #[verifier::truncate] (external.player.energy as u8) == internal.energy) {
        assert(monsters_on(e, b, m5, m6, false));
        return false;
    }
    let res = orbs_match(&external.player.orbs, &internal.orbs);
    assert(monsters_on(e, b, m5, m6, res));
    res
}

/// Whether the check of a card of the client against an offer reaches its price: the
/// names and upgrades agree.
pub open spec fn card_offer_reached(x: external::Card, o: (CardOffer, u16)) -> bool {
    plain_name(x.name@) == o.0.base.name@ && (x.upgrades > 0) == o.0.upgraded
}

/// Whether a card of the client is a card offered in the shop at the same price.
pub open spec fn card_offer_ok(x: external::Card, o: (CardOffer, u16)) -> bool {
    card_offer_reached(x, o) && x.price.unwrap() as u16 == o.1
}

/// Whether a relic of the client is a relic offered in the shop at the same price.
pub open spec fn relic_offer_ok(x: external::Relic, o: (&'static BaseRelic, u16)) -> bool {
    o.0.name@ == x.name@ && x.price.unwrap() as u16 == o.1
}

/// Whether a potion of the client is a potion offered in the shop at the same price.
pub open spec fn potion_offer_ok(x: external::Potion, o: (&'static BasePotion, u16)) -> bool {
    o.0.name@ == x.name@ && x.price.unwrap() as u16 == o.1
}

/// Whether the shop's offers are the client's, pairing them in order as far as both go:
/// the cards, then the relics and potions, each at the same price, and the removal of a
/// card offered exactly when the client offers it.
pub open spec fn shop_ok(x: external::ShopScreen, sh: ShopState) -> bool {
    &&& forall|i: int| 0 <= i < x.cards@.len() && 0 <= i < store_cards(sh.cards).len()
        ==> card_offer_ok(#[trigger] x.cards@[i], store_cards(sh.cards)[i])
    &&& forall|i: int| 0 <= i < x.relics@.len() && 0 <= i < store_relics(sh.relics).len()
        ==> relic_offer_ok(#[trigger] x.relics@[i], store_relics(sh.relics)[i])
    &&& forall|i: int| 0 <= i < x.potions@.len() && 0 <= i < store_potions(sh.potions).len()
        ==> potion_offer_ok(#[trigger] x.potions@[i], store_potions(sh.potions)[i])
    &&& sh.can_purge == x.purge_available
}

/// Whether comparing the shop's offers with the client's runs without failing: a price
/// that the client does not show is not reached, that is, each pair whose names (and,
/// for cards, upgrades) agree but whose price is missing comes after a pair that differs.
pub open spec fn shop_safe(x: external::ShopScreen, sh: ShopState) -> bool {
    let cards_ok = forall|i: int| 0 <= i < x.cards@.len() && 0 <= i < store_cards(sh.cards).len()
        ==> card_offer_ok(#[trigger] x.cards@[i], store_cards(sh.cards)[i]);
    let relics_ok = forall|i: int| 0 <= i < x.relics@.len() && 0 <= i < store_relics(sh.relics).len()
        ==> relic_offer_ok(#[trigger] x.relics@[i], store_relics(sh.relics)[i]);
    &&& forall|i: int|
        0 <= i < x.cards@.len() && 0 <= i < store_cards(sh.cards).len() && card_offer_reached(#[trigger] x.cards@[i], store_cards(sh.cards)[i])
            && x.cards@[i].price is None ==> exists|j: int| 0 <= j < i && !card_offer_ok(#[trigger] x.cards@[j], store_cards(sh.cards)[j])
    &&& cards_ok ==> forall|i: int|
        0 <= i < x.relics@.len() && 0 <= i < store_relics(sh.relics).len() && store_relics(sh.relics)[i].0.name@ == (#[trigger] x.relics@[i]).name@
            && x.relics@[i].price is None ==> exists|j: int| 0 <= j < i && !relic_offer_ok(#[trigger] x.relics@[j], store_relics(sh.relics)[j])
    &&& cards_ok && relics_ok ==> forall|i: int|
        0 <= i < x.potions@.len() && 0 <= i < store_potions(sh.potions).len() && store_potions(sh.potions)[i].0.name@ == (#[trigger] x.potions@[i]).name@
            && x.potions@[i].price is None ==> exists|j: int| 0 <= j < i && !potion_offer_ok(#[trigger] x.potions@[j], store_potions(sh.potions)[j])
}

/// Whether the shop's offers are the client's.
fn shop_matches(x: &external::ShopScreen, sh: &ShopState) -> (res: bool)
    requires
        shop_safe(*x, *sh),
    ensures
        res == shop_ok(*x, *sh),
{
    let cards = store_cards_items(&sh.cards);
    let mut i: usize = 0;
    while i < x.cards.len() && i < cards.len()
        invariant
            0 <= i <= x.cards@.len(),
            i <= cards@.len(),
            cards@ == store_cards(sh.cards),
            shop_safe(*x, *sh),
            forall|j: int| 0 <= j < i ==> card_offer_ok(#[trigger] x.cards@[j], cards@[j]),
        decreases x.cards@.len() - i,
    {
        proof {
            if card_offer_reached(x.cards@[i as int], cards@[i as int]) && x.cards@[i as int].price is None {
                let j = choose|j: int| 0 <= j < i && !card_offer_ok(#[trigger] x.cards@[j], store_cards(sh.cards)[j]);
                assert(card_offer_ok(x.cards@[j], cards@[j]));
            }
        }
        let (offer, price) = cards[i];
        if !card_offer_matches(&x.cards[i], &offer, price) {
            return false;
        }
        i = i + 1;
    }
    let relics = store_relics_items(&sh.relics);
    let mut i: usize = 0;
    while i < x.relics.len() && i < relics.len()
        invariant
            0 <= i <= x.relics@.len(),
            i <= relics@.len(),
            relics@ == store_relics(sh.relics),
            shop_safe(*x, *sh),
            forall|j: int| 0 <= j < x.cards@.len() && 0 <= j < store_cards(sh.cards).len()
                ==> card_offer_ok(#[trigger] x.cards@[j], store_cards(sh.cards)[j]),
            forall|j: int| 0 <= j < i ==> relic_offer_ok(#[trigger] x.relics@[j], relics@[j]),
        decreases x.relics@.len() - i,
    {
        let (offer, price) = relics[i];
        let r = &x.relics[i];
        if !str_eq(offer.name.as_str(), r.name.as_str()) {
            return false;
        }
        proof {
            if r.price is None {
                let j = choose|j: int| 0 <= j < i && !relic_offer_ok(#[trigger] x.relics@[j], store_relics(sh.relics)[j]);
                assert(relic_offer_ok(x.relics@[j], relics@[j]));
            }
        }
        if #[verifier::truncate] (r.price.unwrap() as u16) != price {
            return false;
        }
        i = i + 1;
    }
    let potions = store_potions_items(&sh.potions);
    let mut i: usize = 0;
    while i < x.potions.len() && i < potions.len()
        invariant
            0 <= i <= x.potions@.len(),
            i <= potions@.len(),
            potions@ == store_potions(sh.potions),
            shop_safe(*x, *sh),
            forall|j: int| 0 <= j < x.cards@.len() && 0 <= j < store_cards(sh.cards).len()
                ==> card_offer_ok(#[trigger] x.cards@[j], store_cards(sh.cards)[j]),
            forall|j: int| 0 <= j < x.relics@.len() && 0 <= j < store_relics(sh.relics).len()
                ==> relic_offer_ok(#[trigger] x.relics@[j], store_relics(sh.relics)[j]),
            forall|j: int| 0 <= j < i ==> potion_offer_ok(#[trigger] x.potions@[j], potions@[j]),
        decreases x.potions@.len() - i,
    {
        let (offer, price) = potions[i];
        let p = &x.potions[i];
        if !str_eq(offer.name.as_str(), p.name.as_str()) {
            return false;
        }
        proof {
            if p.price is None {
                let j = choose|j: int| 0 <= j < i && !potion_offer_ok(#[trigger] x.potions@[j], store_potions(sh.potions)[j]);
                assert(potion_offer_ok(x.potions@[j], potions@[j]));
            }
        }
        if #[verifier::truncate] (p.price.unwrap() as u16) != price {
            return false;
        }
        i = i + 1;
    }
    sh.can_purge == x.purge_available
}

/// Whether the client's screen, other than a battle, is the model's floor: an event of
/// the same name and choices, the map, the rewards of a won battle, a shop and its
/// offers, a rest site, a chest of the same kind, or the end of the game; any other
/// screen agrees with every floor.
pub open spec fn screen_ok(e: external::GameState, f: FloorState) -> bool {
    match e.screen_state {
        external::ScreenState::Idle => false,
        external::ScreenState::Event(ev) => f matches FloorState::Event(s) && events_ok(ev, s),
        external::ScreenState::MapScreen(_) => f is OnMap,
        external::ScreenState::CombatReward(rs) => f matches FloorState::BattleOver(bo) && rewards_ok(rs@, reward_items(bo.rewards.rewards)),
        external::ScreenState::ShopRoom => f is Shop,
        external::ScreenState::ShopScreen(x) => f matches FloorState::Shop(sh) && shop_ok(x, sh),
        external::ScreenState::Rest(_) => f is Rest,
        external::ScreenState::Chest(c) => f matches FloorState::Chest(cs) && cs.chest == chest_of(c.chest_type),
        external::ScreenState::GameOver(_) => f is GameOver,
        _ => true,
    }
}

/// Whether the client shows a battle in progress that the model holds as a battle.
pub open spec fn in_battle(e: external::GameState, f: FloorState) -> bool {
    e.screen_state is Idle && e.room_phase == external::RoomPhase::Combat && f is Battle
}

/// Whether comparing the client's screen with the model's floor runs without failing: a
/// battle in progress comes with the client's combat and can be compared; a shop's
/// prices can be compared; a chest is of a kind the model knows.
pub open spec fn floor_safe(e: external::GameState, f: FloorState, idx: Map<Seq<char>, u128>) -> bool {
    match e.screen_state {
        external::ScreenState::Idle => match f {
            FloorState::Battle(b) => e.room_phase == external::RoomPhase::Combat ==> e.combat_state is Some
                && battle_safe(e.combat_state.unwrap(), b, idx),
            _ => true,
        },
        external::ScreenState::ShopScreen(x) => match f {
            FloorState::Shop(sh) => shop_safe(x, sh),
            _ => true,
        },
        external::ScreenState::Chest(c) => match f {
            FloorState::Chest(_) => c.chest_type != external::ChestType::Unknown,
            _ => true,
        },
        _ => true,
    }
}

/// The battle that a floor holds.
pub open spec fn battle_of(f: FloorState) -> BattleState {
    match f {
        FloorState::Battle(b) => b,
        _ => arbitrary(),
    }
}

/// What comparing the client's screen with the model's floor can end with: the
/// comparison of the battle in progress, or else no change to the map of identifiers and
/// whether the screen agrees.
pub open spec fn floor_outcome(e: external::GameState, f: FloorState, idx: Map<Seq<char>, u128>, idx2: Map<Seq<char>, u128>, res: bool) -> bool {
    if in_battle(e, f) {
        battle_outcome(e.combat_state.unwrap(), battle_of(f), idx, idx2, res)
    } else {
        idx2 == idx && res == screen_ok(e, f)
    }
}

/// Whether the client's screen is the model's floor.
pub fn floor_state_matches(
    external: &external::GameState,
    internal: &FloorState,
    uuid_map: &mut im::HashMap<String, u128>,
) -> (res: bool)
    requires
        floor_safe(*external, *internal, name_index(*old(uuid_map))),
    ensures
        floor_outcome(*external, *internal, name_index(*old(uuid_map)), name_index(*final(uuid_map)), res),
{
    match &external.screen_state {
        external::ScreenState::Idle => match external.room_phase {
            external::RoomPhase::Combat => match internal {
                FloorState::Battle(battle_state) => {
                    battle_state_matches(external.combat_state.as_ref().unwrap(), battle_state, uuid_map)
                },
                _ => false,
            },
            _ => false,
        },
        external::ScreenState::Event(event) => match internal {
            FloorState::Event(event_state) => events_match(event, event_state),
            _ => false,
        },
        external::ScreenState::MapScreen(_) => matches!(internal, FloorState::OnMap(_)),
        external::ScreenState::CombatReward(rewards) => match internal {
            FloorState::BattleOver(battle_over) => rewards_match(rewards, &battle_over.rewards.rewards),
            _ => false,
        },
        external::ScreenState::ShopRoom => matches!(internal, FloorState::Shop(_)),
        external::ScreenState::ShopScreen(shop) => match internal {
            FloorState::Shop(shop_state) => shop_matches(shop, shop_state),
            _ => false,
        },
        external::ScreenState::Rest(_) => matches!(internal, FloorState::Rest(_)),
        external::ScreenState::Chest(chest) => match internal {
            FloorState::Chest(chest_state) => chest_matches(chest, chest_state.chest),
            _ => false,
        },
        external::ScreenState::GameOver(_) => matches!(internal, FloorState::GameOver(..)),
        _ => true,
    }
}

/// Whether the client's run, out of battle, agrees with the model's run on what is
/// compared before the screen: class, hit points and their maximum, gold and floor.
pub open spec fn run_heads_ok(e: external::GameState, g: GameState) -> bool {
    &&& g.class == external::class_of(e.class)
    &&& e.current_hp as u16 == g.hp.amount
    &&& e.max_hp as u16 == g.hp.max
    &&& e.gold as u16 == g.gold
    &&& e.floor as i8 == g.map.floor
}

/// Whether comparing what the client reports with the model's floor runs without
/// failing, whatever the matching picks: in battle, the battle can be compared; out of
/// battle, the model holds a run, the client names one of the four classes, and the
/// screen, the deck and the relics can be compared where the comparison reaches them.
pub open spec fn state_safe(external: Option<external::GameState>, f: FloorState, idx: Map<Seq<char>, u128>) -> bool {
    match external {
        None => true,
        Some(e) => match e.combat_state {
            Some(c) => f is Battle ==> battle_safe(c, battle_of(f), idx),
            None => {
                let g = crate::state::floor::game_of(f);
                &&& crate::state::floor::has_game(f)
                &&& e.class != external::PlayerClass::Other
                &&& run_heads_ok(e, g) ==> floor_safe(e, f, idx)
                &&& forall|idx1: Map<Seq<char>, u128>|
                    #[trigger] floor_outcome(e, f, idx, idx1, true) && run_heads_ok(e, g) ==> {
                        &&& sets_safe(e.deck@, deck_cards(g.deck), idx1)
                        &&& forall|idx2: Map<Seq<char>, u128>|
                            #[trigger] sets_after(e.deck@, deck_cards(g.deck), idx1, idx2) && sets_ok(e.deck@, deck_cards(g.deck), idx1)
                                && potions_ok(e.potions@, slot_items(g.potions)) ==> sets_safe(e.relics@, relic_entries(g.relics.relics), idx2)
                    }
            },
        },
    }
}

/// What comparing the run out of battle can end with, once the screen agreed with the
/// map of identifiers at `idx1`: the deck, the potions, the relics, the act and the
/// ascension level; false at the first that differs.
pub open spec fn run_tail(e: external::GameState, g: GameState, idx1: Map<Seq<char>, u128>, idx3: Map<Seq<char>, u128>, res: bool) -> bool {
    exists|idx2: Map<Seq<char>, u128>|
        #[trigger] sets_after(e.deck@, deck_cards(g.deck), idx1, idx2) && if sets_ok(e.deck@, deck_cards(g.deck), idx1) && potions_ok(
            e.potions@,
            slot_items(g.potions),
        ) {
            &&& sets_after(e.relics@, relic_entries(g.relics.relics), idx2, idx3)
            &&& res == (sets_ok(e.relics@, relic_entries(g.relics.relics), idx2) && e.act as u8 == g.act && e.ascension_level as u8 == g.asc)
        } else {
            idx3 == idx2 && !res
        }
}

/// What comparing what the client reports with the model's floor can end with, from the
/// map of identifiers `idx` to `idx2`: with no game, whether the model is at the menu;
/// in battle, the comparison of the battle where the model is in one; out of battle,
/// the class, hit points, gold and floor, the screen, then the deck, potions, relics,
/// act and ascension level, false at the first that differs.
pub open spec fn state_outcome(
    external: Option<external::GameState>,
    f: FloorState,
    idx: Map<Seq<char>, u128>,
    idx2: Map<Seq<char>, u128>,
    res: bool,
) -> bool {
    match external {
        None => idx2 == idx && res == (f is Menu),
        Some(e) => match e.combat_state {
            Some(c) => if f is Battle {
                battle_outcome(c, battle_of(f), idx, idx2, res)
            } else {
                idx2 == idx && !res
            },
            None => {
                let g = crate::state::floor::game_of(f);
                if !run_heads_ok(e, g) {
                    idx2 == idx && !res
                } else {
                    exists|idx1: Map<Seq<char>, u128>, r1: bool|
                        #[trigger] floor_outcome(e, f, idx, idx1, r1) && if r1 {
                            run_tail(e, g, idx1, idx2, res)
                        } else {
                            idx2 == idx1 && !res
                        }
                }
            },
        },
    }
}

/// Whether what the client reports is the model's floor, pointing the identifiers of the
/// cards, powers and relics not known yet at those they are.
pub fn state_matches(
    external: &Option<external::GameState>,
    internal: &FloorState,
    uuid_map: &mut im::HashMap<String, u128>,
) -> (res: bool)
    requires
        state_safe(*external, *internal, name_index(*old(uuid_map))),
    ensures
        state_outcome(*external, *internal, name_index(*old(uuid_map)), name_index(*final(uuid_map)), res),
{
    match external {
        Some(e) => match &e.combat_state {
            Some(combat_state) => match internal {
                FloorState::Battle(battle_state) => battle_state_matches(combat_state, battle_state, uuid_map),
                _ => false,
            },
            None => {
                let ghost m0 = name_index(*uuid_map);
                let game = internal.game_state();
                if !(class_matches(&e.class, game.class)
                    && #[verifier::truncate] (e.current_hp as u16) == game.hp.amount
                    && #[verifier::truncate] (e.max_hp as u16) == game.hp.max
                    && #[verifier::truncate] (e.gold as u16) == game.gold
                    && #[verifier::truncate] (e.floor as i8) == game.map.floor) {
                    return false;
                }
                let r1 = floor_state_matches(e, internal, uuid_map);
                let ghost m1 = name_index(*uuid_map);
                assert(floor_outcome(*e, *internal, m0, m1, r1));
                if !r1 {
                    return false;
                }
                let r2 = cards_match(&e.deck, &game.deck, uuid_map);
                let ghost m2 = name_index(*uuid_map);
                assert(sets_after(e.deck@, deck_cards(game.deck), m1, m2));
                if !(r2 && potions_match(&e.potions, &game.potions)) {
                    assert(run_tail(*e, *game, m1, m2, false));
                    return false;
                }
                let r3 = relics_match(&e.relics, &game.relics.relics, uuid_map);
                let res = r3 && #[verifier::truncate] (e.act as u8) == game.act
                    && #[verifier::truncate] (e.ascension_level as u8) == game.asc;
                assert(run_tail(*e, *game, m1, name_index(*uuid_map), res));
                res
            },
        },
        None => matches!(internal, FloorState::Menu),
    }
}

} // verus!
