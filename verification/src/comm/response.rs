//! What the player's choices are sent to the game client as.

use vstd::prelude::*;
use vstd::string::StringExecFns;

use crate::models::choices::{Choice, ChoiceView};
use crate::models::common::Class;
use crate::serialization as external;
use crate::state::collections::name_index;
use crate::state::game::DeckCard;
use crate::spireai::references::{CardReference, MonsterReference};

verus! {

/// A command for the game client: a literal command, choosing an option by name or by
/// index, or choosing a card of a grid or of the deck.
#[derive(PartialEq, Eq, Clone, Debug)]
pub enum Response {
    Simple(String),
    Choose(String),
    ChooseIdx(usize),
    CardInGrid(usize),
    CardInDeck(usize),
}

/// A command as a mathematical value.
pub enum ResponseView {
    Simple(Seq<char>),
    Choose(Seq<char>),
    ChooseIdx(usize),
    CardInGrid(usize),
    CardInDeck(usize),
}

impl View for Response {
    type V = ResponseView;

    open spec fn view(&self) -> ResponseView {
        match self {
            Response::Simple(s) => ResponseView::Simple(s@),
            Response::Choose(s) => ResponseView::Choose(s@),
            Response::ChooseIdx(i) => ResponseView::ChooseIdx(*i),
            Response::CardInGrid(i) => ResponseView::CardInGrid(*i),
            Response::CardInDeck(i) => ResponseView::CardInDeck(*i),
        }
    }
}

/// The views of a list of commands.
pub open spec fn response_views(rs: Seq<Response>) -> Seq<ResponseView> {
    rs.map_values(|r: Response| r@)
}

// ---- text ----
/// The character of a decimal digit.
pub open spec fn digit(d: int) -> char {
    (d + 48) as char
}

/// A number in decimal digits, without leading zeros.
pub open spec fn decimal(n: nat) -> Seq<char>
    decreases n,
{
    if n < 10 {
        seq![digit(n as int)]
    } else {
        decimal(n / 10).push(digit((n % 10) as int))
    }
}

/// A number in decimal digits, or nothing.
pub open spec fn opt_decimal(n: Option<nat>) -> Seq<char> {
    match n {
        Some(v) => decimal(v),
        None => Seq::empty(),
    }
}

/// `<usize as ToString>::to_string`: the number in decimal digits, without leading
/// zeros, as std's `Display` for integers writes it.
#[verifier::external_body]
fn decimal_text(n: usize) -> (res: String)
    ensures
        res@ == decimal(n as nat),
{
    n.to_string()
}

/// A number in decimal digits, or an empty text.
fn opt_text(n: Option<usize>) -> (res: String)
    ensures
        res@ == opt_decimal(
            match n {
                Some(v) => Some(v as nat),
                None => None,
            },
        ),
{
    match n {
        Some(v) => decimal_text(v),
        None => String::new(),
    }
}

/// The name of a class as the client reads it: the name of its variant, `None` for the
/// cards of no class.
pub open spec fn class_text(c: Class) -> Seq<char> {
    match c {
        Class::All => "All"@,
        Class::Colorless => "None"@,
        Class::Ironclad => "Ironclad"@,
        Class::Silent => "Silent"@,
        Class::Defect => "Defect"@,
        Class::Watcher => "Watcher"@,
        Class::Curse => "Curse"@,
    }
}

/// The name of a class as the client reads it.
fn class_name(c: Class) -> (res: &'static str)
    ensures
        res@ == class_text(c),
{
    match c {
        Class::All => "All",
        Class::Colorless => "None",
        Class::Ironclad => "Ironclad",
        Class::Silent => "Silent",
        Class::Defect => "Defect",
        Class::Watcher => "Watcher",
        Class::Curse => "Curse",
    }
}

// ---- finding what the client calls a card or a monster ----
/// Whether a list names each entry of a map from client identifiers to identifiers
/// once.
pub open spec fn lists_names(items: Seq<(String, u128)>, m: Map<Seq<char>, u128>) -> bool {
    &&& m.dom().finite()
    &&& items.len() == m.dom().len()
    &&& forall|i: int| 0 <= i < items.len() ==> #[trigger] m.contains_key(items[i].0@) && m[items[i].0@] == items[i].1
    &&& forall|i: int, j: int| 0 <= i < j < items.len() ==> (#[trigger] items[i]).0@ != (#[trigger] items[j]).0@
    &&& forall|k: Seq<char>| #[trigger] m.contains_key(k) ==> exists|i: int| 0 <= i < items.len() && (#[trigger] items[i]).0@ == k
}

/// `im::HashMap::iter`, with the names cloned: each entry once, in an order that depends
/// on the map's randomly seeded hasher and is not stated.
#[verifier::external_body]
fn name_index_entries(m: &im::HashMap<String, u128>) -> (res: Vec<(String, u128)>)
    ensures
        lists_names(res@, name_index(*m)),
{
    m.iter().map(|(k, v)| (k.clone(), *v)).collect()
}

/// Whether a listing of the map holds an entry for an identifier.
pub open spec fn has_id(items: Seq<(String, u128)>, uuid: u128) -> bool {
    exists|i: int| 0 <= i < items.len() && (#[trigger] items[i]).1 == uuid
}

/// The client identifier of the first entry of a listing for an identifier.
pub open spec fn id_of(items: Seq<(String, u128)>, uuid: u128) -> Seq<char>
    decreases items.len(),
{
    if items.len() == 0 {
        Seq::empty()
    } else if items[0].1 == uuid {
        items[0].0@
    } else {
        id_of(items.drop_first(), uuid)
    }
}

/// The client identifier of the first entry of a listing for an identifier, which must
/// have one.
fn uuid_to_id(items: &Vec<(String, u128)>, uuid: u128) -> (res: String)
    requires
        has_id(items@, uuid),
    ensures
        res@ == id_of(items@, uuid),
{
    let mut i: usize = 0;
    assert(items@.skip(0) == items@);
    while i < items.len()
        invariant
            0 <= i <= items@.len(),
            has_id(items@.skip(i as int), uuid),
            id_of(items@.skip(i as int), uuid) == id_of(items@, uuid),
        decreases items@.len() - i,
    {
        if items[i].1 == uuid {
            return items[i].0.clone();
        }
        assert(items@.skip(i as int).drop_first() == items@.skip(i + 1));
        proof {
            let k = choose|k: int| 0 <= k < items@.skip(i as int).len() && (#[trigger] items@.skip(i as int)[k]).1 == uuid;
            assert(k != 0);
            assert(items@.skip(i + 1)[k - 1] == items@.skip(i as int)[k]);
        }
        i = i + 1;
    }
    proof {
        let k = choose|k: int| 0 <= k < items@.skip(i as int).len() && (#[trigger] items@.skip(i as int)[k]).1 == uuid;
    }
    vstd::pervasive::unreached()
}

/// The client identifiers of a list of cards.
pub open spec fn card_ids(cards: Seq<external::Card>) -> Seq<Seq<char>> {
    cards.map_values(|c: external::Card| c.id@)
}

/// The client identifiers of a list of monsters.
pub open spec fn monster_ids(monsters: Seq<external::Monster>) -> Seq<Seq<char>> {
    monsters.map_values(|m: external::Monster| m.id@)
}

/// Whether `i` is the first position of an identifier in a list.
pub open spec fn is_first(ids: Seq<Seq<char>>, id: Seq<char>, i: int) -> bool {
    &&& 0 <= i < ids.len()
    &&& ids[i] == id
    &&& forall|j: int| 0 <= j < i ==> ids[j] != id
}

/// The first position of an identifier in a list that holds it.
pub open spec fn first_pos(ids: Seq<Seq<char>>, id: Seq<char>) -> int {
    choose|i: int| is_first(ids, id, i)
}

/// The first position is the only one.
proof fn lemma_first_unique(ids: Seq<Seq<char>>, id: Seq<char>, i: int)
    requires
        is_first(ids, id, i),
    ensures
        first_pos(ids, id) == i,
{
    let j = first_pos(ids, id);
    assert(is_first(ids, id, j));
    if j < i {
        assert(ids[j] != id);
    }
    if i < j {
        assert(ids[i] != id);
    }
}

/// The first position of a card of the given client identifier, if any.
fn card_position(cards: &Vec<external::Card>, id: &str) -> (res: Option<usize>)
    ensures
        match res {
            Some(i) => is_first(card_ids(cards@), id@, i as int) && first_pos(card_ids(cards@), id@) == i && i
                < usize::MAX,
            None => !card_ids(cards@).contains(id@),
        },
{
    let mut i: usize = 0;
    while i < cards.len()
        invariant
            0 <= i <= cards@.len(),
            forall|j: int| 0 <= j < i ==> card_ids(cards@)[j] != id@,
        decreases cards@.len() - i,
    {
        if crate::models::common::str_eq(cards[i].id.as_str(), id) {
            proof {
                lemma_first_unique(card_ids(cards@), id@, i as int);
            }
            return Some(i);
        }
        i = i + 1;
    }
    None
}

/// The first position of a monster of the given client identifier, if any.
fn monster_position(monsters: &Vec<external::Monster>, id: &str) -> (res: Option<usize>)
    ensures
        match res {
            Some(i) => first_pos(monster_ids(monsters@), id@) == i,
            None => !monster_ids(monsters@).contains(id@),
        },
{
    let mut i: usize = 0;
    while i < monsters.len()
        invariant
            0 <= i <= monsters@.len(),
            forall|j: int| 0 <= j < i ==> monster_ids(monsters@)[j] != id@,
        decreases monsters@.len() - i,
    {
        if crate::models::common::str_eq(monsters[i].id.as_str(), id) {
            proof {
                lemma_first_unique(monster_ids(monsters@), id@, i as int);
            }
            return Some(i);
        }
        i = i + 1;
    }
    None
}

/// Whether a card of the given client identifier is in one of the piles of a combat.
pub open spec fn in_combat(c: external::CombatState, id: Seq<char>) -> bool {
    card_ids(c.limbo@).contains(id) || card_ids(c.hand@).contains(id) || card_ids(c.draw_pile@).contains(id)
        || card_ids(c.discard_pile@).contains(id) || card_ids(c.exhaust_pile@).contains(id)
}

/// The position of a card in the first pile that holds it: limbo, hand, draw pile,
/// discard pile, exhaust pile.
pub open spec fn combat_position(c: external::CombatState, id: Seq<char>) -> int {
    if card_ids(c.limbo@).contains(id) {
        first_pos(card_ids(c.limbo@), id)
    } else if card_ids(c.hand@).contains(id) {
        first_pos(card_ids(c.hand@), id)
    } else if card_ids(c.draw_pile@).contains(id) {
        first_pos(card_ids(c.draw_pile@), id)
    } else if card_ids(c.discard_pile@).contains(id) {
        first_pos(card_ids(c.discard_pile@), id)
    } else {
        first_pos(card_ids(c.exhaust_pile@), id)
    }
}

/// The combat of a request, which must be in one.
pub open spec fn combat_of(request: external::Response) -> external::CombatState {
    request.game_state.unwrap().combat_state.unwrap()
}

/// Whether a request reports a combat.
pub open spec fn has_combat(request: external::Response) -> bool {
    request.game_state matches Some(g) && g.combat_state is Some
}

/// The deck the client reports, which the request must hold.
pub open spec fn deck_of(request: external::Response) -> Seq<external::Card> {
    request.game_state.unwrap().deck@
}

/// Whether an identifier has a client identifier in a listing of the map, and that one
/// names an item of a list.
pub open spec fn found(names: Seq<(String, u128)>, uuid: u128, ids: Seq<Seq<char>>) -> bool {
    has_id(names, uuid) && ids.contains(id_of(names, uuid))
}

/// Whether an identifier has a client identifier in the map, and each one that it has
/// names an item of a list.
pub open spec fn id_known(m: Map<Seq<char>, u128>, uuid: u128, ids: Seq<Seq<char>>) -> bool {
    &&& exists|k: Seq<char>| #[trigger] m.contains_key(k) && m[k] == uuid
    &&& forall|k: Seq<char>| #[trigger] m.contains_key(k) && m[k] == uuid ==> ids.contains(k)
}

/// Whether an identifier has a client identifier in the map, and each one that it has
/// names a card of a pile of the combat.
pub open spec fn id_in_combat(m: Map<Seq<char>, u128>, uuid: u128, c: external::CombatState) -> bool {
    &&& exists|k: Seq<char>| #[trigger] m.contains_key(k) && m[k] == uuid
    &&& forall|k: Seq<char>| #[trigger] m.contains_key(k) && m[k] == uuid ==> in_combat(c, k)
}

/// The position of the target of a choice among the monsters of the combat.
pub open spec fn target_position(request: external::Response, names: Seq<(String, u128)>, target: Option<MonsterReference>) -> Option<nat> {
    match target {
        Some(m) => Some(first_pos(monster_ids(combat_of(request).monsters@), id_of(names, m.uuid)) as nat),
        None => None,
    }
}

/// The position of a card of the deck in the deck that the client reports.
pub open spec fn deck_position(request: external::Response, names: Seq<(String, u128)>, card: DeckCard) -> usize {
    first_pos(card_ids(deck_of(request)), id_of(names, card.uuid)) as usize
}

/// Choosing each card of a grid by its position in limbo.
pub open spec fn grid_picks(request: external::Response, names: Seq<(String, u128)>, cards: Seq<CardReference>) -> Seq<ResponseView> {
    cards.map_values(|c: CardReference| ResponseView::CardInGrid(
        first_pos(card_ids(combat_of(request).limbo@), id_of(names, c.uuid)) as usize,
    ))
}

/// Choosing each card of the deck by its position in the deck.
pub open spec fn deck_picks(request: external::Response, names: Seq<(String, u128)>, cards: Seq<DeckCard>) -> Seq<ResponseView> {
    cards.map_values(|c: DeckCard| ResponseView::CardInDeck(deck_position(request, names, c)))
}

/// The commands that make a choice in the client, given a listing of the map from client
/// identifiers to identifiers.
pub open spec fn decompose_spec(choice: ChoiceView, request: external::Response, names: Seq<(String, u128)>) -> Seq<ResponseView> {
    match choice {
        ChoiceView::Start { player_class, ascension } => seq![ResponseView::Simple(
            "START "@ + class_text(player_class) + " "@ + opt_decimal(
                match ascension {
                    Some(a) => Some(a as nat),
                    None => None,
                },
            ),
        )],
        ChoiceView::DiscardPotion { slot } => seq![ResponseView::Simple("POTION Discard "@ + decimal(slot as nat))],
        ChoiceView::DrinkPotion { slot, target } => seq![ResponseView::Simple(
            "POTION Use "@ + decimal(slot as nat) + " "@ + opt_decimal(target_position(request, names, target)),
        )],
        ChoiceView::PlayCard { card, target } => seq![ResponseView::Simple(
            "PLAY "@ + decimal(((combat_position(combat_of(request), id_of(names, card.uuid)) + 1) % 10) as nat) + " "@
                + opt_decimal(target_position(request, names, target)),
        )],
        ChoiceView::End => seq![ResponseView::Simple("END"@)],
        ChoiceView::EnterShop => seq![ResponseView::Simple("CHOOSE 0"@)],
        ChoiceView::Event(name) => seq![ResponseView::Choose(name)],
        ChoiceView::Proceed => seq![ResponseView::Simple("PROCEED"@)],
        ChoiceView::State => seq![ResponseView::Simple("STATE"@)],
        ChoiceView::Skip => seq![ResponseView::Simple("SKIP"@)],
        ChoiceView::SingingBowl => seq![ResponseView::Simple("SINGING_BOWL"@)],
        ChoiceView::BuyCard(i) => seq![ResponseView::ChooseIdx(i)],
        ChoiceView::BuyPotion(i) => seq![ResponseView::ChooseIdx(i)],
        ChoiceView::BuyRelic(i) => seq![ResponseView::ChooseIdx(i)],
        ChoiceView::BuyRemoveCard(card) => seq![
            ResponseView::Choose("purge"@),
            ResponseView::CardInDeck(deck_position(request, names, card)),
        ],
        ChoiceView::TakeReward(i) => seq![ResponseView::Simple("CHOOSE "@ + decimal(i as nat))],
        ChoiceView::NavigateToNode(x) => seq![ResponseView::Choose("x="@ + decimal(x as nat))],
        ChoiceView::AddCardToDeck(name) => seq![ResponseView::Choose(name)],
        ChoiceView::Rest => seq![ResponseView::Choose("rest"@), ResponseView::Simple("PROCEED"@)],
        ChoiceView::Smith => seq![ResponseView::Choose("smith"@)],
        ChoiceView::Dig => seq![ResponseView::Choose("dig"@), ResponseView::Simple("PROCEED"@)],
        ChoiceView::Lift => seq![ResponseView::Choose("lift"@), ResponseView::Simple("PROCEED"@)],
        ChoiceView::Recall => seq![ResponseView::Choose("recall"@), ResponseView::Simple("PROCEED"@)],
        ChoiceView::Toke => seq![ResponseView::Choose("toke"@)],
        ChoiceView::SelectCards(cards) => grid_picks(request, names, cards) + seq![ResponseView::Simple("CONFIRM"@)],
        ChoiceView::Scry(cards) => grid_picks(request, names, cards) + seq![ResponseView::Simple("CONFIRM"@)],
        ChoiceView::DeckSelect(cards, _) => deck_picks(request, names, cards) + seq![ResponseView::Simple("CONFIRM"@)],
        ChoiceView::OpenChest => seq![ResponseView::Simple("CHOOSE 0"@)],
        _ => Seq::empty(),
    }
}

/// Whether the target of a choice, if any, has a client identifier in a listing of the
/// map that names a monster of the combat.
pub open spec fn target_found(request: external::Response, names: Seq<(String, u128)>, target: Option<MonsterReference>) -> bool {
    target matches Some(m) ==> has_combat(request) && found(names, m.uuid, monster_ids(combat_of(request).monsters@))
}

/// Whether a choice can be sent, given a listing of the map: each card and monster it
/// names has a client identifier that the request reports where it is looked for; the
/// wishes and stance choices have no command.
pub open spec fn sendable(choice: ChoiceView, request: external::Response, names: Seq<(String, u128)>) -> bool {
    match choice {
        ChoiceView::DrinkPotion { target, .. } => target_found(request, names, target),
        ChoiceView::PlayCard { card, target } => has_combat(request) && has_id(names, card.uuid) && in_combat(
            combat_of(request),
            id_of(names, card.uuid),
        ) && target_found(request, names, target),
        ChoiceView::BuyRemoveCard(card) => request.game_state is Some && found(names, card.uuid, card_ids(deck_of(request))),
        ChoiceView::SelectCards(cards) => has_combat(request) && forall|i: int| 0 <= i < cards.len() ==> found(
            names,
            (#[trigger] cards[i]).uuid,
            card_ids(combat_of(request).limbo@),
        ),
        ChoiceView::Scry(cards) => has_combat(request) && forall|i: int| 0 <= i < cards.len() ==> found(
            names,
            (#[trigger] cards[i]).uuid,
            card_ids(combat_of(request).limbo@),
        ),
        ChoiceView::DeckSelect(cards, _) => request.game_state is Some && forall|i: int| 0 <= i < cards.len() ==> found(
            names,
            (#[trigger] cards[i]).uuid,
            card_ids(deck_of(request)),
        ),
        ChoiceView::WishPlated | ChoiceView::WishStrength | ChoiceView::WishGold | ChoiceView::StanceCalm
        | ChoiceView::StanceWrath => false,
        _ => true,
    }
}

/// Whether a choice can be sent (see `sendable`), stated over the map from client
/// identifiers to identifiers, for every client identifier of each identifier.
pub open spec fn sendable_in(choice: ChoiceView, request: external::Response, m: Map<Seq<char>, u128>) -> bool {
    match choice {
        ChoiceView::DrinkPotion { target, .. } => target matches Some(t) ==> has_combat(request) && id_known(
            m,
            t.uuid,
            monster_ids(combat_of(request).monsters@),
        ),
        ChoiceView::PlayCard { card, target } => has_combat(request) && id_in_combat(m, card.uuid, combat_of(request))
            && (target matches Some(t) ==> id_known(m, t.uuid, monster_ids(combat_of(request).monsters@))),
        ChoiceView::BuyRemoveCard(card) => request.game_state is Some && id_known(m, card.uuid, card_ids(deck_of(request))),
        ChoiceView::SelectCards(cards) => has_combat(request) && forall|i: int| 0 <= i < cards.len() ==> id_known(
            m,
            (#[trigger] cards[i]).uuid,
            card_ids(combat_of(request).limbo@),
        ),
        ChoiceView::Scry(cards) => has_combat(request) && forall|i: int| 0 <= i < cards.len() ==> id_known(
            m,
            (#[trigger] cards[i]).uuid,
            card_ids(combat_of(request).limbo@),
        ),
        ChoiceView::DeckSelect(cards, _) => request.game_state is Some && forall|i: int| 0 <= i < cards.len() ==> id_known(
            m,
            (#[trigger] cards[i]).uuid,
            card_ids(deck_of(request)),
        ),
        ChoiceView::WishPlated | ChoiceView::WishStrength | ChoiceView::WishGold | ChoiceView::StanceCalm
        | ChoiceView::StanceWrath => false,
        _ => true,
    }
}

/// The client identifier that a listing gives an identifier is one of its entries.
proof fn lemma_id_of(names: Seq<(String, u128)>, uuid: u128)
    requires
        has_id(names, uuid),
    ensures
        exists|i: int| 0 <= i < names.len() && (#[trigger] names[i]).1 == uuid && names[i].0@ == id_of(names, uuid),
    decreases names.len(),
{
    if names[0].1 == uuid {
        assert(names[0].0@ == id_of(names, uuid));
    } else {
        let rest = names.drop_first();
        let k = choose|k: int| 0 <= k < names.len() && (#[trigger] names[k]).1 == uuid;
        assert(rest[k - 1] == names[k]);
        lemma_id_of(rest, uuid);
        let j = choose|j: int| 0 <= j < rest.len() && (#[trigger] rest[j]).1 == uuid && rest[j].0@ == id_of(rest, uuid);
        assert(names[j + 1] == rest[j]);
    }
}

/// Every client identifier of an identifier names an item of a list, so the one that a
/// listing gives it does.
proof fn lemma_found(names: Seq<(String, u128)>, m: Map<Seq<char>, u128>, uuid: u128, ids: Seq<Seq<char>>)
    requires
        lists_names(names, m),
        id_known(m, uuid, ids),
    ensures
        found(names, uuid, ids),
{
    let k = choose|k: Seq<char>| #[trigger] m.contains_key(k) && m[k] == uuid;
    let i = choose|i: int| 0 <= i < names.len() && (#[trigger] names[i]).0@ == k;
    assert(m.contains_key(names[i].0@));
    assert(has_id(names, uuid));
    lemma_id_of(names, uuid);
    let j = choose|j: int| 0 <= j < names.len() && (#[trigger] names[j]).1 == uuid && names[j].0@ == id_of(names, uuid);
    assert(m.contains_key(names[j].0@));
}

/// Every client identifier of an identifier names a card of the combat, so the one that
/// a listing gives it does.
proof fn lemma_found_in_combat(names: Seq<(String, u128)>, m: Map<Seq<char>, u128>, uuid: u128, c: external::CombatState)
    requires
        lists_names(names, m),
        id_in_combat(m, uuid, c),
    ensures
        has_id(names, uuid),
        in_combat(c, id_of(names, uuid)),
{
    let k = choose|k: Seq<char>| #[trigger] m.contains_key(k) && m[k] == uuid;
    let i = choose|i: int| 0 <= i < names.len() && (#[trigger] names[i]).0@ == k;
    assert(m.contains_key(names[i].0@));
    assert(has_id(names, uuid));
    lemma_id_of(names, uuid);
    let j = choose|j: int| 0 <= j < names.len() && (#[trigger] names[j]).1 == uuid && names[j].0@ == id_of(names, uuid);
    assert(m.contains_key(names[j].0@));
}

/// What the map states of a choice holds of any listing of it.
proof fn lemma_sendable(choice: ChoiceView, request: external::Response, names: Seq<(String, u128)>, m: Map<Seq<char>, u128>)
    requires
        lists_names(names, m),
        sendable_in(choice, request, m),
    ensures
        sendable(choice, request, names),
{
    match choice {
        ChoiceView::DrinkPotion { target, .. } => {
            if let Some(t) = target {
                lemma_found(names, m, t.uuid, monster_ids(combat_of(request).monsters@));
            }
        },
        ChoiceView::PlayCard { card, target } => {
            lemma_found_in_combat(names, m, card.uuid, combat_of(request));
            if let Some(t) = target {
                lemma_found(names, m, t.uuid, monster_ids(combat_of(request).monsters@));
            }
        },
        ChoiceView::BuyRemoveCard(card) => {
            lemma_found(names, m, card.uuid, card_ids(deck_of(request)));
        },
        ChoiceView::SelectCards(cards) => {
            assert forall|i: int| 0 <= i < cards.len() implies found(names, (#[trigger] cards[i]).uuid, card_ids(combat_of(request).limbo@)) by {
                lemma_found(names, m, cards[i].uuid, card_ids(combat_of(request).limbo@));
            }
        },
        ChoiceView::Scry(cards) => {
            assert forall|i: int| 0 <= i < cards.len() implies found(names, (#[trigger] cards[i]).uuid, card_ids(combat_of(request).limbo@)) by {
                lemma_found(names, m, cards[i].uuid, card_ids(combat_of(request).limbo@));
            }
        },
        ChoiceView::DeckSelect(cards, _) => {
            assert forall|i: int| 0 <= i < cards.len() implies found(names, (#[trigger] cards[i]).uuid, card_ids(deck_of(request))) by {
                lemma_found(names, m, cards[i].uuid, card_ids(deck_of(request)));
            }
        },
        _ => {},
    }
}

// ---- building the commands ----
/// The combat of a request that reports one.
fn combat_ref(request: &external::Response) -> (res: &external::CombatState)
    requires
        has_combat(*request),
    ensures
        *res == combat_of(*request),
{
    match &request.game_state {
        Some(g) => match &g.combat_state {
            Some(c) => c,
            None => vstd::pervasive::unreached(),
        },
        None => vstd::pervasive::unreached(),
    }
}

/// The deck of a request that reports a game.
fn deck_ref(request: &external::Response) -> (res: &Vec<external::Card>)
    requires
        request.game_state is Some,
    ensures
        res@ == deck_of(*request),
{
    match &request.game_state {
        Some(g) => &g.deck,
        None => vstd::pervasive::unreached(),
    }
}

/// The position of the target of a choice among the monsters, in decimal digits, or an
/// empty text.
fn target_text(request: &external::Response, names: &Vec<(String, u128)>, target: Option<MonsterReference>) -> (res: String)
    requires
        target_found(*request, names@, target),
    ensures
        res@ == opt_decimal(target_position(*request, names@, target)),
{
    match target {
        Some(m) => {
            let id = uuid_to_id(names, m.uuid);
            let combat = combat_ref(request);
            match monster_position(&combat.monsters, id.as_str()) {
                Some(i) => decimal_text(i),
                None => vstd::pervasive::unreached(),
            }
        },
        None => String::new(),
    }
}

/// The position of a card in the first pile of the combat that holds it.
fn combat_card_position(c: &external::CombatState, id: &str) -> (res: usize)
    requires
        in_combat(*c, id@),
    ensures
        res == combat_position(*c, id@),
        res < usize::MAX,
{
    match card_position(&c.limbo, id) {
        Some(i) => i,
        None => match card_position(&c.hand, id) {
            Some(i) => i,
            None => match card_position(&c.draw_pile, id) {
                Some(i) => i,
                None => match card_position(&c.discard_pile, id) {
                    Some(i) => i,
                    None => match card_position(&c.exhaust_pile, id) {
                        Some(i) => i,
                        None => vstd::pervasive::unreached(),
                    },
                },
            },
        },
    }
}

/// The position of a card of the deck in the deck that the client reports.
fn deck_card_position(request: &external::Response, names: &Vec<(String, u128)>, card: DeckCard) -> (res: usize)
    requires
        request.game_state is Some,
        found(names@, card.uuid, card_ids(deck_of(*request))),
    ensures
        res == deck_position(*request, names@, card),
{
    let id = uuid_to_id(names, card.uuid);
    match card_position(deck_ref(request), id.as_str()) {
        Some(i) => i,
        None => vstd::pervasive::unreached(),
    }
}

/// A literal command.
fn simple(text: &str) -> (res: Response)
    ensures
        res@ == ResponseView::Simple(text@),
{
    Response::Simple(String::from_str(text))
}

/// Choosing an option by a literal name.
fn choose_named(text: &str) -> (res: Response)
    ensures
        res@ == ResponseView::Choose(text@),
{
    Response::Choose(String::from_str(text))
}

/// A list of one command.
fn one(r: Response) -> (res: Vec<Response>)
    ensures
        response_views(res@) == seq![r@],
{
    let res = vec![r];
    assert(response_views(res@) =~= seq![r@]);
    res
}

/// A list of two commands.
fn two(a: Response, b: Response) -> (res: Vec<Response>)
    ensures
        response_views(res@) == seq![a@, b@],
{
    let res = vec![a, b];
    assert(response_views(res@) =~= seq![a@, b@]);
    res
}

/// The commands that make a choice, given a listing of the map from client identifiers
/// to identifiers.
pub fn decompose_with(choice: Choice, request: &external::Response, names: &Vec<(String, u128)>) -> (res: Vec<Response>)
    requires
        sendable(choice@, *request, names@),
    ensures
        response_views(res@) == decompose_spec(choice@, *request, names@),
{
    match choice {
        Choice::Start { player_class, ascension } => {
            let mut text = String::from_str("START ");
            text.append(class_name(player_class));
            text.append(" ");
            let asc = match ascension {
                Some(a) => Some(a as usize),
                None => None,
            };
            text.append(opt_text(asc).as_str());
            one(Response::Simple(text))
        },
        Choice::DiscardPotion { slot } => {
            let mut text = String::from_str("POTION Discard ");
            text.append(decimal_text(slot).as_str());
            one(Response::Simple(text))
        },
        Choice::DrinkPotion { slot, target } => {
            let mut text = String::from_str("POTION Use ");
            text.append(decimal_text(slot).as_str());
            text.append(" ");
            text.append(target_text(request, names, target).as_str());
            one(Response::Simple(text))
        },
        Choice::PlayCard { card, target } => {
            let id = uuid_to_id(names, card.uuid);
            let position = combat_card_position(combat_ref(request), id.as_str());
            let mut text = String::from_str("PLAY ");
            text.append(decimal_text((position + 1) % 10).as_str());
            text.append(" ");
            text.append(target_text(request, names, target).as_str());
            one(Response::Simple(text))
        },
        Choice::End => one(simple("END")),
        Choice::EnterShop => one(simple("CHOOSE 0")),
        Choice::Event(name) => one(Response::Choose(name)),
        Choice::Proceed => one(simple("PROCEED")),
        Choice::State => one(simple("STATE")),
        Choice::Skip => one(simple("SKIP")),
        Choice::SingingBowl => one(simple("SINGING_BOWL")),
        Choice::BuyCard(i) => one(Response::ChooseIdx(i)),
        Choice::BuyPotion(i) => one(Response::ChooseIdx(i)),
        Choice::BuyRelic(i) => one(Response::ChooseIdx(i)),
        Choice::BuyRemoveCard(card) => two(
            choose_named("purge"),
            Response::CardInDeck(deck_card_position(request, names, card)),
        ),
        Choice::TakeReward(i) => {
            let mut text = String::from_str("CHOOSE ");
            text.append(decimal_text(i).as_str());
            one(Response::Simple(text))
        },
        Choice::NavigateToNode(x) => {
            let mut text = String::from_str("x=");
            text.append(decimal_text(x as usize).as_str());
            one(Response::Choose(text))
        },
        Choice::AddCardToDeck(name) => one(Response::Choose(name)),
        Choice::Rest => two(choose_named("rest"), simple("PROCEED")),
        Choice::Smith => one(choose_named("smith")),
        Choice::Dig => two(choose_named("dig"), simple("PROCEED")),
        Choice::Lift => two(choose_named("lift"), simple("PROCEED")),
        Choice::Recall => two(choose_named("recall"), simple("PROCEED")),
        Choice::Toke => one(choose_named("toke")),
        Choice::SelectCards(cards) => grid_commands(&cards, request, names),
        Choice::Scry(cards) => grid_commands(&cards, request, names),
        Choice::DeckSelect(cards, _) => {
            let mut res: Vec<Response> = Vec::new();
            let mut i: usize = 0;
            while i < cards.len()
                invariant
                    0 <= i <= cards@.len(),
                    request.game_state is Some,
                    forall|j: int| 0 <= j < cards@.len() ==> found(names@, (#[trigger] cards@[j]).uuid, card_ids(deck_of(*request))),
                    response_views(res@) == deck_picks(*request, names@, cards@.take(i as int)),
                decreases cards@.len() - i,
            {
                let ghost before = res@;
                let r = Response::CardInDeck(deck_card_position(request, names, cards[i]));
                res.push(r);
                assert(response_views(res@) =~= response_views(before).push(r@));
                assert(deck_picks(*request, names@, cards@.take(i + 1)) =~= deck_picks(*request, names@, cards@.take(i as int)).push(r@));
                i = i + 1;
            }
            assert(cards@.take(cards@.len() as int) == cards@);
            let ghost before = res@;
            let r = simple("CONFIRM");
            res.push(r);
            assert(response_views(res@) =~= response_views(before).push(r@));
            res
        },
        Choice::OpenChest => one(simple("CHOOSE 0")),
        _ => vstd::pervasive::unreached(),
    }
}

/// Choosing each card of a grid by its position in limbo, then confirming.
fn grid_commands(cards: &Vec<CardReference>, request: &external::Response, names: &Vec<(String, u128)>) -> (res: Vec<Response>)
    requires
        has_combat(*request),
        forall|j: int| 0 <= j < cards@.len() ==> found(names@, (#[trigger] cards@[j]).uuid, card_ids(combat_of(*request).limbo@)),
    ensures
        response_views(res@) == grid_picks(*request, names@, cards@) + seq![ResponseView::Simple("CONFIRM"@)],
{
    let combat = combat_ref(request);
    let mut res: Vec<Response> = Vec::new();
    let mut i: usize = 0;
    while i < cards.len()
        invariant
            0 <= i <= cards@.len(),
            *combat == combat_of(*request),
            forall|j: int| 0 <= j < cards@.len() ==> found(names@, (#[trigger] cards@[j]).uuid, card_ids(combat_of(*request).limbo@)),
            response_views(res@) == grid_picks(*request, names@, cards@.take(i as int)),
        decreases cards@.len() - i,
    {
        assert(found(names@, cards@[i as int].uuid, card_ids(combat_of(*request).limbo@)));
        let id = uuid_to_id(names, cards[i].uuid);
        let position = match card_position(&combat.limbo, id.as_str()) {
            Some(p) => p,
            None => vstd::pervasive::unreached(),
        };
        let ghost before = res@;
        let r = Response::CardInGrid(position);
        res.push(r);
        assert(response_views(res@) =~= response_views(before).push(r@));
        assert(grid_picks(*request, names@, cards@.take(i + 1)) =~= grid_picks(*request, names@, cards@.take(i as int)).push(r@));
        i = i + 1;
    }
    assert(cards@.take(cards@.len() as int) == cards@);
    let ghost before = res@;
    let r = simple("CONFIRM");
    res.push(r);
    assert(response_views(res@) =~= response_views(before).push(r@));
    res
}

/// The commands that make a choice in the client: the commands of `decompose_spec`, for
/// the listing of the map from client identifiers to identifiers that its walk gives.
pub fn decompose_choice(choice: Choice, request: &external::Response, uuid_map: &im::HashMap<String, u128>) -> (res: Vec<Response>)
    requires
        sendable_in(choice@, *request, name_index(*uuid_map)),
    ensures
        exists|names: Seq<(String, u128)>| #[trigger] lists_names(names, name_index(*uuid_map))
            && response_views(res@) == decompose_spec(choice@, *request, names),
{
    let names = name_index_entries(uuid_map);
    proof {
        lemma_sendable(choice@, *request, names@, name_index(*uuid_map));
    }
    decompose_with(choice, request, &names)
}

/// Whether a choice is one of a rest site's options.
pub open spec fn is_rest_option(c: ChoiceView) -> bool {
    c is Rest || c is Smith || c is Dig || c is Lift || c is Recall || c is Toke
}

/// Each option of a rest site is sent first as choosing that option by its own name:
/// resting "rest", smithing "smith", digging "dig", lifting "lift", recalling "recall" and
/// toking "toke"; so two different options never send the same first command.
pub proof fn law_rest_options_named(request: external::Response, names: Seq<(String, u128)>)
    ensures
        decompose_spec(ChoiceView::Rest, request, names)[0] == ResponseView::Choose("rest"@),
        decompose_spec(ChoiceView::Smith, request, names)[0] == ResponseView::Choose("smith"@),
        decompose_spec(ChoiceView::Dig, request, names)[0] == ResponseView::Choose("dig"@),
        decompose_spec(ChoiceView::Lift, request, names)[0] == ResponseView::Choose("lift"@),
        decompose_spec(ChoiceView::Recall, request, names)[0] == ResponseView::Choose("recall"@),
        decompose_spec(ChoiceView::Toke, request, names)[0] == ResponseView::Choose("toke"@),
        forall|a: ChoiceView, b: ChoiceView| is_rest_option(a) && is_rest_option(b) && a != b
            ==> #[trigger] decompose_spec(a, request, names)[0] != #[trigger] decompose_spec(b, request, names)[0],
{
    reveal_strlit("rest");
    reveal_strlit("smith");
    reveal_strlit("dig");
    reveal_strlit("lift");
    reveal_strlit("recall");
    reveal_strlit("toke");
    assert forall|a: ChoiceView, b: ChoiceView| is_rest_option(a) && is_rest_option(b) && a != b
        implies #[trigger] decompose_spec(a, request, names)[0] != #[trigger] decompose_spec(b, request, names)[0] by {
        assert("rest"@.len() == 4 && "smith"@.len() == 5 && "dig"@.len() == 3);
        assert("lift"@.len() == 4 && "recall"@.len() == 6 && "toke"@.len() == 4);
        assert("rest"@[0] == 'r' && "lift"@[0] == 'l' && "toke"@[0] == 't');
    }
}

/// The commands of the choices that need nothing looked up: ending the turn sends "END",
/// entering a shop "CHOOSE 0", proceeding "PROCEED", asking for the state "STATE",
/// skipping "SKIP", the Singing Bowl "SINGING_BOWL"; buying the item at a position chooses
/// that position; an event's option and a card for the deck are chosen by their name.
pub proof fn law_plain_commands(request: external::Response, names: Seq<(String, u128)>, i: usize, name: Seq<char>)
    ensures
        decompose_spec(ChoiceView::End, request, names) == seq![ResponseView::Simple("END"@)],
        decompose_spec(ChoiceView::EnterShop, request, names) == seq![ResponseView::Simple("CHOOSE 0"@)],
        decompose_spec(ChoiceView::Proceed, request, names) == seq![ResponseView::Simple("PROCEED"@)],
        decompose_spec(ChoiceView::State, request, names) == seq![ResponseView::Simple("STATE"@)],
        decompose_spec(ChoiceView::Skip, request, names) == seq![ResponseView::Simple("SKIP"@)],
        decompose_spec(ChoiceView::SingingBowl, request, names) == seq![ResponseView::Simple("SINGING_BOWL"@)],
        decompose_spec(ChoiceView::BuyCard(i), request, names) == seq![ResponseView::ChooseIdx(i)],
        decompose_spec(ChoiceView::BuyPotion(i), request, names) == seq![ResponseView::ChooseIdx(i)],
        decompose_spec(ChoiceView::BuyRelic(i), request, names) == seq![ResponseView::ChooseIdx(i)],
        decompose_spec(ChoiceView::Event(name), request, names) == seq![ResponseView::Choose(name)],
        decompose_spec(ChoiceView::AddCardToDeck(name), request, names) == seq![ResponseView::Choose(name)],
{
}

// ---- the text of a command ----
/// A text with its ASCII capitals made small, other characters unchanged.
pub open spec fn ascii_lower(s: Seq<char>) -> Seq<char> {
    s.map_values(|c: char| if 'A' <= c && c <= 'Z' {
        ((c as u32) + 32) as char
    } else {
        c
    })
}

/// `str::to_ascii_lowercase`: a copy of the text in which the ASCII letters 'A' to 'Z'
/// become 'a' to 'z' and every other character stays, as std documents it.
#[verifier::external_body]
fn lower_text(s: &str) -> (res: String)
    ensures
        res@ == ascii_lower(s@),
{
    s.to_ascii_lowercase()
}

/// The options of a screen, with their capitals made small.
pub open spec fn lowered(names: Seq<String>) -> Seq<Seq<char>> {
    names.map_values(|n: String| ascii_lower(n@))
}

/// Whether the text of a command can be told from the game the client last reported: an
/// option chosen by name is among the screen's options, whatever their case, and a card
/// chosen from the deck is in the deck and in the grid on screen.
pub open spec fn serializable(r: ResponseView, state: Option<external::GameState>) -> bool {
    match r {
        ResponseView::Choose(name) => state matches Some(g) && lowered(g.choice_list@).contains(ascii_lower(name)),
        ResponseView::CardInDeck(p) => match state {
            Some(g) => p < g.deck@.len() && match g.screen_state {
                external::ScreenState::Grid(grid) => card_ids(grid.cards@).contains(g.deck@[p as int].id@),
                _ => false,
            },
            None => false,
        },
        _ => true,
    }
}

/// The text of a command: a literal command as it is, and `CHOOSE` with the position of
/// the option or card: an option named whatever its case, an index as it is, a card of
/// the deck at the position of the first card of the grid with its client identifier.
pub open spec fn serialize_spec(r: ResponseView, state: Option<external::GameState>) -> Seq<char> {
    match r {
        ResponseView::Simple(s) => s,
        ResponseView::Choose(name) => "CHOOSE "@ + decimal(first_pos(lowered(state.unwrap().choice_list@), ascii_lower(name)) as nat),
        ResponseView::ChooseIdx(i) => "CHOOSE "@ + decimal(i as nat),
        ResponseView::CardInGrid(i) => "CHOOSE "@ + decimal(i as nat),
        ResponseView::CardInDeck(p) => {
            let g = state.unwrap();
            match g.screen_state {
                external::ScreenState::Grid(grid) => "CHOOSE "@ + decimal(first_pos(card_ids(grid.cards@), g.deck@[p as int].id@) as nat),
                _ => Seq::empty(),
            }
        },
    }
}

/// `CHOOSE` and a position.
fn choose_text(position: usize) -> (res: String)
    ensures
        res@ == "CHOOSE "@ + decimal(position as nat),
{
    let mut text = String::from_str("CHOOSE ");
    text.append(decimal_text(position).as_str());
    text
}

/// The text of a command for the client.
pub fn serialize_response(response: &Response, state: &Option<external::GameState>) -> (res: String)
    requires
        serializable(response@, *state),
    ensures
        res@ == serialize_spec(response@, *state),
{
    match response {
        Response::Simple(literal) => literal.clone(),
        Response::Choose(name) => {
            let g = match state {
                Some(g) => g,
                None => vstd::pervasive::unreached(),
            };
            let wanted = lower_text(name.as_str());
            let mut i: usize = 0;
            while i < g.choice_list.len()
                invariant
                    0 <= i <= g.choice_list@.len(),
                    response@ == ResponseView::Choose(name@),
                    *state == Some(*g),
                    wanted@ == ascii_lower(name@),
                    lowered(g.choice_list@).contains(wanted@),
                    forall|j: int| 0 <= j < i ==> lowered(g.choice_list@)[j] != wanted@,
                decreases g.choice_list@.len() - i,
            {
                let option = lower_text(g.choice_list[i].as_str());
                if crate::models::common::str_eq(option.as_str(), wanted.as_str()) {
                    proof {
                        lemma_first_unique(lowered(g.choice_list@), wanted@, i as int);
                    }
                    return choose_text(i);
                }
                i = i + 1;
            }
            vstd::pervasive::unreached()
        },
        Response::ChooseIdx(idx) => choose_text(*idx),
        Response::CardInGrid(position) => choose_text(*position),
        Response::CardInDeck(position) => {
            let g = match state {
                Some(g) => g,
                None => vstd::pervasive::unreached(),
            };
            let ref_card = &g.deck[*position];
            match &g.screen_state {
                external::ScreenState::Grid(grid) => match card_position(&grid.cards, ref_card.id.as_str()) {
                    Some(p) => choose_text(p),
                    None => vstd::pervasive::unreached(),
                },
                _ => vstd::pervasive::unreached(),
            }
        },
    }
}

} // verus!
