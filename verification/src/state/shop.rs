//! A shop: its card, potion and relic offers with their prices, the card removal it
//! offers, and what buying does to the run.

use vstd::prelude::*;

use crate::models::cards::{available_cards_by_class, class_pool, BaseCard};
use crate::models::common::{str_eq, CardType, Class, DeckOperation, FightType, Rarity};
use crate::models::potions::BasePotion;
use crate::models::relics::BaseRelic;
use crate::state::collections::{
    deck_cards, name_index, name_index_get, offers_from, relic_entries, relic_map_get,
    relic_map_insert, reward_items, rewards_from, slot_items, store_cards, store_cards_from,
    store_cards_insert, store_cards_remove, store_potions, store_potions_from,
    store_potions_insert, store_potions_remove, store_relics, store_relics_from,
    store_relics_insert, store_relics_remove,
};
use crate::state::common::{Card, CardOffer, Relic, Reward, RewardState};
use crate::state::game::{
    potion_drawn, potions_drawable, random_potion, DeckCard, GameState, Relics,
};
use crate::state::probability::Probability;

verus! {

/// What the player is doing in a shop.
#[derive(PartialEq, Eq, Hash, Clone, Debug)]
pub enum ShopScreenState {
    Entrance,
    DeckChoose(DeckOperation),
    Reward(RewardState),
    InShop,
}

/// A shop, with the run of the player in it.
#[derive(PartialEq, Eq, Clone, Debug)]
pub struct ShopState {
    pub generated: bool,
    pub updated: bool,
    pub cards: im::Vector<(CardOffer, u16)>,
    pub potions: im::Vector<(&'static BasePotion, u16)>,
    pub relics: im::Vector<(&'static BaseRelic, u16)>,
    pub can_purge: bool,
    pub game_state: GameState,
    pub screen_state: ShopScreenState,
}

/// A price drawn for a range: between the lowest and highest price of the range, each
/// made cheaper by the discount `num / den` and rounded up, the highest excluded; the
/// lowest, with no draw, where the two meet.
pub open spec fn priced(low: int, high: int, num: int, den: int, price: int, fb: Seq<(u64, u64)>, fa: Seq<(u64, u64)>) -> bool {
    let lo = (low * num + den - 1) / den;
    let hi = (high * num + den - 1) / den;
    &&& hi > lo ==> lo <= price < hi && fa == fb.push((1u64, (hi - lo) as u64))
    &&& hi <= lo ==> price == lo && fa == fb
}

/// The rarity asked of a relic for sale: shop relics where asked, else any.
pub open spec fn shop_rarity(is_shop: bool) -> Option<Rarity> {
    if is_shop {
        Some(Rarity::Shop)
    } else {
        None
    }
}

/// The range of prices of a relic of a rarity.
pub open spec fn relic_range(r: Rarity) -> (int, int) {
    match r {
        Rarity::Uncommon => (238, 262),
        Rarity::Rare => (285, 315),
        _ => (143, 157),
    }
}

/// The range of prices of a potion of a rarity.
pub open spec fn potion_range(r: Rarity) -> (int, int) {
    match r {
        Rarity::Uncommon => (72, 78),
        Rarity::Rare => (95, 105),
        _ => (48, 52),
    }
}

/// The range of prices of a card: colorless uncommons and rares cost more.
pub open spec fn card_range(card: BaseCard) -> (int, int) {
    if card._class == Class::Colorless {
        if card.rarity == Rarity::Rare { (162, 198) } else { (81, 91) }
    } else {
        match card.rarity {
            Rarity::Uncommon => (68, 82),
            Rarity::Rare => (135, 165),
            _ => (45, 55),
        }
    }
}

/// Whether a card is a class card of a rarity above another's: a rare above an uncommon
/// or common, an uncommon above a common.
pub open spec fn rarer_class_card(a: BaseCard, b: BaseCard) -> bool {
    &&& a._class != Class::Colorless && b._class != Class::Colorless
    &&& (a.rarity == Rarity::Rare && (b.rarity == Rarity::Uncommon || b.rarity == Rarity::Common))
        || (a.rarity == Rarity::Uncommon && b.rarity == Rarity::Common)
}

/// At full price a class card costs by its rarity, the top of each range excluded: a
/// common 45 to 54, an uncommon 68 to 81, a rare 135 to 164.
pub proof fn law_class_card_full_prices(card: BaseCard, price: int, fb: Seq<(u64, u64)>, fa: Seq<(u64, u64)>)
    requires
        card._class != Class::Colorless,
        priced(card_range(card).0, card_range(card).1, 5, 5, price, fb, fa),
    ensures
        card.rarity == Rarity::Common ==> 45 <= price < 55,
        card.rarity == Rarity::Uncommon ==> 68 <= price < 82,
        card.rarity == Rarity::Rare ==> 135 <= price < 165,
{
}

/// At full price a colorless card costs 81 to 90 when uncommon and 162 to 197 when rare; a
/// relic 143 to 156 when common, shop or other, 238 to 261 when uncommon, 285 to 314 when
/// rare; a potion 48 to 51 when common, 72 to 77 when uncommon, 95 to 104 when rare.
pub proof fn law_full_prices(card: BaseCard, relic: Rarity, potion: Rarity, pc: int, pr: int, pp: int, f: Seq<(u64, u64)>, fc: Seq<(u64, u64)>, fr: Seq<(u64, u64)>, fp: Seq<(u64, u64)>)
    requires
        card._class == Class::Colorless,
        card_priceable(card),
        priced(card_range(card).0, card_range(card).1, 5, 5, pc, f, fc),
        priced(relic_range(relic).0, relic_range(relic).1, 5, 5, pr, f, fr),
        priced(potion_range(potion).0, potion_range(potion).1, 5, 5, pp, f, fp),
    ensures
        card.rarity == Rarity::Uncommon ==> 81 <= pc < 91,
        card.rarity == Rarity::Rare ==> 162 <= pc < 198,
        relic == Rarity::Uncommon ==> 238 <= pr < 262,
        relic == Rarity::Rare ==> 285 <= pr < 315,
        relic != Rarity::Uncommon && relic != Rarity::Rare ==> 143 <= pr < 157,
        potion == Rarity::Uncommon ==> 72 <= pp < 78,
        potion == Rarity::Rare ==> 95 <= pp < 105,
        potion != Rarity::Uncommon && potion != Rarity::Rare ==> 48 <= pp < 52,
{
}

/// Under any discount that a shop gives (the Courier's four fifths or none, over the
/// Membership Card's half or none, halved again for a card on sale), a class card of a
/// higher rarity always costs more than one of a lower rarity.
pub proof fn law_rarer_class_cards_cost_more(
    a: BaseCard,
    b: BaseCard,
    num: int,
    den: int,
    pa: int,
    pb: int,
    fa0: Seq<(u64, u64)>,
    fa1: Seq<(u64, u64)>,
    fb0: Seq<(u64, u64)>,
    fb1: Seq<(u64, u64)>,
)
    requires
        rarer_class_card(a, b),
        num == 4 || num == 5,
        den == 5 || den == 10 || den == 20,
        priced(card_range(a).0, card_range(a).1, num, den, pa, fa0, fa1),
        priced(card_range(b).0, card_range(b).1, num, den, pb, fb0, fb1),
    ensures
        pa > pb,
{
    if num == 4 {
        if den == 5 {
        } else if den == 10 {
        } else {
        }
    } else {
        if den == 5 {
        } else if den == 10 {
        } else {
        }
    }
}

/// Whether a card can be priced: a colorless uncommon or rare, or a common, uncommon or
/// rare card of a class.
pub open spec fn card_priceable(card: BaseCard) -> bool {
    if card._class == Class::Colorless {
        card.rarity == Rarity::Uncommon || card.rarity == Rarity::Rare
    } else {
        card.rarity == Rarity::Common || card.rarity == Rarity::Uncommon || card.rarity == Rarity::Rare
    }
}

/// Draws a price for a range under a discount.
fn draw_price(low: u32, high: u32, num: u32, den: u32, probability: &mut Probability) -> (res: u16)
    requires
        low <= high <= 400,
        1 <= num <= den <= 20,
    ensures
        priced(low as int, high as int, num as int, den as int, res as int, old(probability).factors@, final(probability).factors@),
{
    assert(high * num <= 400 * 20) by (nonlinear_arith)
        requires
            high <= 400,
            num <= 20,
    ;
    assert(low * num <= high * num) by (nonlinear_arith)
        requires
            low <= high,
    ;
    let lo = (low * num + den - 1) / den;
    let hi = (high * num + den - 1) / den;
    assert(lo <= hi) by {
        vstd::arithmetic::div_mod::lemma_div_is_ordered((low * num + den - 1) as int, (high * num + den - 1) as int, den as int);
    }
    assert(hi <= 8020) by {
        vstd::arithmetic::div_mod::lemma_div_is_ordered((high * num + den - 1) as int, 8020 * den as int, den as int);
        vstd::arithmetic::div_mod::lemma_div_by_multiple(8020, den as int);
        assert(8020 * den as int == den * 8020) by (nonlinear_arith);
    }
    let drawn = probability.range((hi - lo) as usize);
    (drawn as u32 + lo) as u16
}

/// The price of removing a card with both the Membership Card and The Courier, from a
/// base price: three fifths of it, rounded up, as single-precision arithmetic reckons
/// it, which lands just above a whole number at 100, 175 and 200 and so rounds up once
/// more there.
pub open spec fn membership_courier_price(base: int) -> int {
    let price = (base * 3 + 4) / 5;
    if base == 100 || base == 175 || base == 200 {
        price + 1
    } else {
        price
    }
}

impl ShopState {
    /// The discount of the shop as a fraction: a fifth off with The Courier, halved with
    /// the Membership Card.
    pub open spec fn discount_spec(&self) -> (int, int) {
        (
            if self.game_state.relics.has("The Courier"@) { 4 } else { 5 },
            if self.game_state.relics.has("Membership Card"@) { 10 } else { 5 },
        )
    }

    /// The discount of the shop, as a numerator over a denominator.
    pub fn get_discount(&self) -> (res: (u32, u32))
        ensures
            res.0 == self.discount_spec().0 && res.1 == self.discount_spec().1,
    {
        let num: u32 = if self.game_state.relics.contains("The Courier") { 4 } else { 5 };
        let den: u32 = if self.game_state.relics.contains("Membership Card") { 10 } else { 5 };
        (num, den)
    }

    /// The price of removing a card: 50 with the Smiling Mask, else 75 and 25 more for
    /// each card removed so far, made cheaper by the Membership Card (half, or 0.6 with
    /// The Courier too) or The Courier (0.8), rounded up.
    pub open spec fn purge_cost_spec(&self) -> int {
        let base = self.game_state.purge_count * 25 + 75;
        if self.game_state.relics.has("Smiling Mask"@) {
            50
        } else if self.game_state.relics.has("Membership Card"@) {
            if self.game_state.relics.has("The Courier"@) {
                membership_courier_price(base)
            } else {
                (base + 1) / 2
            }
        } else if self.game_state.relics.has("The Courier"@) {
            (base * 4 + 4) / 5
        } else {
            base
        }
    }

    /// Whether the price of removing a card can be reckoned: with the Smiling Mask it is
    /// fixed; else the count of removals so far must keep the base price in a byte.
    pub open spec fn purge_priceable(&self) -> bool {
        !self.game_state.relics.has("Smiling Mask"@) ==> self.game_state.purge_count * 25 + 75 <= u8::MAX
    }

    /// The price of removing a card.
    pub fn purge_cost(&self) -> (res: u16)
        requires
            self.purge_priceable(),
        ensures
            res == self.purge_cost_spec(),
    {
        if self.game_state.relics.contains("Smiling Mask") {
            50
        } else {
            let base = (self.game_state.purge_count * 25 + 75) as u16;
            if self.game_state.relics.contains("Membership Card") {
                if self.game_state.relics.contains("The Courier") {
                    let price = (base * 3 + 4) / 5;
                    if base == 100 || base == 175 || base == 200 {
                        price + 1
                    } else {
                        price
                    }
                } else {
                    (base + 1) / 2
                }
            } else if self.game_state.relics.contains("The Courier") {
                (base * 4 + 4) / 5
            } else {
                base
            }
        }
    }

    /// Spends gold, which the run must have; spending disables the Maw Bank.
    pub fn spend_gold(&mut self, amount: u16)
        requires
            old(self).game_state.gold >= amount,
        ensures
            final(self).game_state.gold == old(self).game_state.gold - amount,
            match old(self).game_state.relics.find_spec("Maw Bank"@) {
                Some(r) => relic_entries(final(self).game_state.relics.relics) == relic_entries(old(self).game_state.relics.relics).insert(
                    name_index(old(self).game_state.relics.relic_names)["Maw Bank"@],
                    Relic { enabled: false, ..r },
                ),
                None => final(self).game_state.relics.relics == old(self).game_state.relics.relics,
            },
            final(self).game_state.relics == (Relics { relics: final(self).game_state.relics.relics, ..old(self).game_state.relics }),
            final(self).game_state == (GameState {
                gold: final(self).game_state.gold,
                relics: final(self).game_state.relics,
                ..old(self).game_state
            }),
            *final(self) == (ShopState { game_state: final(self).game_state, ..*old(self) }),
    {
        self.game_state.gold = self.game_state.gold - amount;
        match name_index_get(&self.game_state.relics.relic_names, "Maw Bank") {
            Some(uuid) => {
                match relic_map_get(&self.game_state.relics.relics, uuid) {
                    Some(relic) => {
                        let mut relic = relic;
                        relic.enabled = false;
                        relic_map_insert(&mut self.game_state.relics.relics, uuid, relic);
                    },
                    None => {},
                }
            },
            None => {},
        }
    }

    /// Removes a card of the deck for its price, which the run must afford; a shop offers
    /// this once.
    pub fn purge(&mut self, card: DeckCard)
        requires
            old(self).purge_priceable(),
            old(self).game_state.purge_count < u8::MAX,
            old(self).game_state.gold >= old(self).purge_cost_spec(),
        ensures
            final(self).game_state.gold == old(self).game_state.gold - old(self).purge_cost_spec(),
            deck_cards(final(self).game_state.deck) == deck_cards(old(self).game_state.deck).remove(card.uuid),
            final(self).game_state.purge_count == old(self).game_state.purge_count + 1,
            !final(self).can_purge,
            final(self).game_state.relics == (Relics { relics: final(self).game_state.relics.relics, ..old(self).game_state.relics }),
            final(self).game_state == (GameState {
                gold: final(self).game_state.gold,
                relics: final(self).game_state.relics,
                deck: final(self).game_state.deck,
                purge_count: final(self).game_state.purge_count,
                ..old(self).game_state
            }),
            *final(self) == (ShopState { game_state: final(self).game_state, can_purge: false, ..*old(self) }),
    {
        let cost = self.purge_cost();
        self.spend_gold(cost);
        self.game_state.remove_card(card.uuid);
        self.game_state.purge_count = self.game_state.purge_count + 1;
        self.can_purge = false;
    }
}


impl ShopState {
    /// The price of a card offer: drawn in the card's range under the discount, halved
    /// again for the card on sale.
    pub fn calculate_card_cost(&self, card: CardOffer, on_sale: bool, probability: &mut Probability) -> (res: u16)
        requires
            card_priceable(*card.base),
        ensures
            priced(
                card_range(*card.base).0,
                card_range(*card.base).1,
                self.discount_spec().0,
                if on_sale { self.discount_spec().1 * 2 } else { self.discount_spec().1 },
                res as int,
                old(probability).factors@,
                final(probability).factors@,
            ),
    {
        let (low, high): (u32, u32) = if card.base._class == Class::Colorless {
            if card.base.rarity == Rarity::Rare { (162, 198) } else { (81, 91) }
        } else {
            match card.base.rarity {
                Rarity::Uncommon => (68, 82),
                Rarity::Rare => (135, 165),
                _ => (45, 55),
            }
        };
        let (num, den) = self.get_discount();
        let den = if on_sale { den * 2 } else { den };
        draw_price(low, high, num, den, probability)
    }

    /// A potion for sale: drawn as `random_potion` draws, priced in its range under the
    /// discount.
    pub fn generate_potion(&self, probability: &mut Probability, catalog: &[&'static BasePotion]) -> (res: (&'static BasePotion, u16))
        requires
            potions_drawable(catalog@, false),
        ensures
            exists|fm: Seq<(u64, u64)>| {
                &&& #[trigger] potion_drawn(catalog@, false, res.0, old(probability).factors@, fm)
                &&& priced(potion_range(res.0.rarity).0, potion_range(res.0.rarity).1, self.discount_spec().0, self.discount_spec().1, res.1 as int, fm, final(probability).factors@)
            },
    {
        let potion = random_potion(false, probability, catalog);
        let ghost fm = probability.factors@;
        let (low, high): (u32, u32) = match potion.rarity {
            Rarity::Uncommon => (72, 78),
            Rarity::Rare => (95, 105),
            _ => (48, 52),
        };
        let (num, den) = self.get_discount();
        let price = draw_price(low, high, num, den, probability);
        proof {
            assert(potion_drawn(catalog@, false, potion, old(probability).factors@, fm));
            assert(priced(potion_range(potion.rarity).0, potion_range(potion.rarity).1, self.discount_spec().0, self.discount_spec().1, price as int, fm, probability.factors@));
            let res = (potion, price);
            assert(potion_drawn(catalog@, false, res.0, old(probability).factors@, fm));
            assert(priced(potion_range(res.0.rarity).0, potion_range(res.0.rarity).1, self.discount_spec().0, self.discount_spec().1, res.1 as int, fm, probability.factors@));
        }
        (potion, price)
    }

    /// A relic for sale: drawn as `random_relic` draws for a shop (a shop relic where
    /// asked), priced in its range under the discount.
    pub fn generate_relic(&mut self, is_shop: bool, probability: &mut Probability, catalog: &[&'static BaseRelic]) -> (res: (&'static BaseRelic, u16))
        requires
            old(self).game_state.relics_drawable(catalog@, None, shop_rarity(is_shop), true),
        ensures
            exists|fm: Seq<(u64, u64)>| {
                &&& #[trigger] old(self).game_state.relic_drawn(final(self).game_state, None, shop_rarity(is_shop), true, catalog@, res.0, old(probability).factors@, fm)
                &&& priced(relic_range(res.0.rarity).0, relic_range(res.0.rarity).1, old(self).discount_spec().0, old(self).discount_spec().1, res.1 as int, fm, final(probability).factors@)
            },
            *final(self) == (ShopState { game_state: final(self).game_state, ..*old(self) }),
    {
        let rarity = if is_shop { Some(Rarity::Shop) } else { None };
        let relic = self.game_state.random_relic(None, rarity, true, probability, catalog);
        let ghost fm = probability.factors@;
        let (low, high): (u32, u32) = match relic.rarity {
            Rarity::Uncommon => (238, 262),
            Rarity::Rare => (285, 315),
            _ => (143, 157),
        };
        let (num, den) = self.get_discount();
        proof {
            assert(self.game_state.relics.has("The Courier"@) == old(self).game_state.relics.has("The Courier"@));
        }
        let price = draw_price(low, high, num, den, probability);
        proof {
            assert(old(self).game_state.relic_drawn(self.game_state, None, rarity, true, catalog@, relic, old(probability).factors@, fm));
            assert(priced(relic_range(relic.rarity).0, relic_range(relic.rarity).1, old(self).discount_spec().0, old(self).discount_spec().1, price as int, fm, probability.factors@));
            let res = (relic, price);
            assert(rarity == shop_rarity(is_shop));
            assert(old(self).game_state.relic_drawn(self.game_state, None, shop_rarity(is_shop), true, catalog@, res.0, old(probability).factors@, fm));
            assert(priced(relic_range(res.0.rarity).0, relic_range(res.0.rarity).1, old(self).discount_spec().0, old(self).discount_spec().1, res.1 as int, fm, probability.factors@));
        }
        (relic, price)
    }
}


/// Whether the run `after` is `before` with gold spent: poorer by the amount, with the
/// Maw Bank, where the run has it, disabled.
pub open spec fn gold_spent(before: GameState, after: GameState, amount: int) -> bool {
    &&& after.gold == before.gold - amount
    &&& match before.relics.find_spec("Maw Bank"@) {
        Some(r) => relic_entries(after.relics.relics) == relic_entries(before.relics.relics).insert(
            name_index(before.relics.relic_names)["Maw Bank"@],
            Relic { enabled: false, ..r },
        ),
        None => after.relics.relics == before.relics.relics,
    }
    &&& after.relics == (Relics { relics: after.relics.relics, ..before.relics })
    &&& after == (GameState { gold: after.gold, relics: after.relics, ..before })
}

impl ShopState {
    /// The cards of the run's class of a type that a shop may offer, but the one of the
    /// excluded offer's name.
    pub open spec fn shop_pool(&self, catalog: Seq<&'static BaseCard>, card_type: CardType, exclude: Option<(CardOffer, u16)>) -> Seq<&'static BaseCard> {
        class_pool(catalog, self.game_state.class).filter(|c: &'static BaseCard| c._type == card_type && match exclude {
            Some(e) => e.0.base.name@ != c.name@,
            None => true,
        })
    }

    /// The colorless cards that a shop may offer: the uncommon ones.
    pub open spec fn colorless_pool(catalog: Seq<&'static BaseCard>) -> Seq<&'static BaseCard> {
        class_pool(catalog, Class::Colorless).filter(|c: &'static BaseCard| c.rarity == Rarity::Uncommon)
    }

    /// Whether a card can be offered and priced out of a list.
    pub open spec fn sellable(&self, cards: Seq<&'static BaseCard>) -> bool {
        &&& self.game_state.offer_possible(None, cards)
        &&& forall|i: int| 0 <= i < cards.len() ==> card_priceable(*#[trigger] cards[i])
    }

    /// A card of a type for sale, of another name than the excluded offer: drawn as
    /// `generate_card_offer` draws out of the shop's pool, priced under the discount (the
    /// card on sale at half).
    pub fn generate_card_offer(
        &self,
        card_type: CardType,
        on_sale: bool,
        exclude: Option<(CardOffer, u16)>,
        probability: &mut Probability,
        catalog: &[&'static BaseCard],
    ) -> (res: (CardOffer, u16))
        requires
            self.sellable(self.shop_pool(catalog@, card_type, exclude)),
        ensures
            exists|fm: Seq<(u64, u64)>| {
                &&& #[trigger] self.game_state.offer_drawn(None, self.shop_pool(catalog@, card_type, exclude), res.0, old(probability).factors@, fm)
                &&& priced(card_range(*res.0.base).0, card_range(*res.0.base).1, self.discount_spec().0,
                    if on_sale { self.discount_spec().1 * 2 } else { self.discount_spec().1 }, res.1 as int, fm, final(probability).factors@)
            },
    {
        let cards = available_cards_by_class(catalog, self.game_state.class);
        let ghost pred = |c: &'static BaseCard| c._type == card_type && match exclude {
            Some(e) => e.0.base.name@ != c.name@,
            None => true,
        };
        let mut available: Vec<&'static BaseCard> = Vec::new();
        let mut i: usize = 0;
        while i < cards.len()
            invariant
                0 <= i <= cards@.len(),
                pred == (|c: &'static BaseCard| c._type == card_type && match exclude {
                    Some(e) => e.0.base.name@ != c.name@,
                    None => true,
                }),
                available@ == cards@.take(i as int).filter(pred),
            decreases cards@.len() - i,
        {
            let c = cards[i];
            let keep = c._type == card_type && match exclude {
                Some(e) => !str_eq(e.0.base.name.as_str(), c.name.as_str()),
                None => true,
            };
            if keep {
                available.push(c);
            }
            proof {
                assert(cards@.take(i + 1).drop_last() =~= cards@.take(i as int));
                assert(cards@.take(i + 1).last() == cards@[i as int]);
                reveal_with_fuel(Seq::<_>::filter, 1);
            }
            i = i + 1;
        }
        proof {
            assert(cards@.take(cards@.len() as int) =~= cards@);
        }
        let ghost f0 = probability.factors@;
        let card = self.game_state.generate_card_offer(None, available.as_slice(), probability);
        let ghost fm = probability.factors@;
        proof {
            let pool = self.shop_pool(catalog@, card_type, exclude);
            let k = choose|k: int| 0 <= k < pool.len() && pool[k] == card.base;
            assert(card_priceable(*pool[k]));
        }
        let cost = self.calculate_card_cost(card, on_sale, probability);
        proof {
            let res = (card, cost);
            assert(self.game_state.offer_drawn(None, self.shop_pool(catalog@, card_type, exclude), res.0, f0, fm));
        }
        (card, cost)
    }

    /// A colorless card for sale: drawn out of the colorless uncommons, priced under the
    /// discount. The rare offer is drawn from the same pool.
    pub fn generate_colorless_offer(&self, rare: bool, probability: &mut Probability, catalog: &[&'static BaseCard]) -> (res: (CardOffer, u16))
        requires
            self.sellable(Self::colorless_pool(catalog@)),
        ensures
            exists|fm: Seq<(u64, u64)>| {
                &&& #[trigger] self.game_state.offer_drawn(None, Self::colorless_pool(catalog@), res.0, old(probability).factors@, fm)
                &&& priced(card_range(*res.0.base).0, card_range(*res.0.base).1, self.discount_spec().0, self.discount_spec().1, res.1 as int, fm, final(probability).factors@)
            },
    {
        let cards = available_cards_by_class(catalog, Class::Colorless);
        let ghost pred = |c: &'static BaseCard| c.rarity == Rarity::Uncommon;
        let mut available: Vec<&'static BaseCard> = Vec::new();
        let mut i: usize = 0;
        while i < cards.len()
            invariant
                0 <= i <= cards@.len(),
                pred == (|c: &'static BaseCard| c.rarity == Rarity::Uncommon),
                available@ == cards@.take(i as int).filter(pred),
            decreases cards@.len() - i,
        {
            let c = cards[i];
            if c.rarity == Rarity::Uncommon {
                available.push(c);
            }
            proof {
                assert(cards@.take(i + 1).drop_last() =~= cards@.take(i as int));
                assert(cards@.take(i + 1).last() == cards@[i as int]);
                reveal_with_fuel(Seq::<_>::filter, 1);
            }
            i = i + 1;
        }
        proof {
            assert(cards@.take(cards@.len() as int) =~= cards@);
        }
        let ghost f0 = probability.factors@;
        let card = self.game_state.generate_card_offer(None, available.as_slice(), probability);
        let ghost fm = probability.factors@;
        proof {
            let pool = Self::colorless_pool(catalog@);
            let k = choose|k: int| 0 <= k < pool.len() && pool[k] == card.base;
            assert(card_priceable(*pool[k]));
        }
        let cost = self.calculate_card_cost(card, false, probability);
        proof {
            let res = (card, cost);
            assert(self.game_state.offer_drawn(None, Self::colorless_pool(catalog@), res.0, f0, fm));
        }
        (card, cost)
    }

    /// Buys the potion at an index, which must be in range, for its price, which the run
    /// must afford; with The Courier, a new potion takes its place. The potion goes to the
    /// first empty slot, if any.
    pub fn buy_potion(&mut self, index: usize, probability: &mut Probability, catalog: &[&'static BasePotion])
        requires
            index < store_potions(old(self).potions).len(),
            old(self).game_state.gold >= store_potions(old(self).potions)[index as int].1,
            old(self).game_state.relics.has("The Courier"@) ==> potions_drawable(catalog@, false),
        ensures
            potion_bought(*old(self), *final(self), index as int, catalog@, old(probability).factors@, final(probability).factors@),
    {
        let (potion, cost) = store_potions_remove(&mut self.potions, index);
        if self.game_state.relics.contains("The Courier") {
            let new_potion = self.generate_potion(probability, catalog);
            store_potions_insert(&mut self.potions, index, new_potion);
        }
        self.spend_gold(cost);
        let ghost mid = self.game_state;
        let added = self.game_state.add_potion(potion);
        proof {
            assert(mid.potion_added(self.game_state, potion));
        }
    }
}


/// Whether `s1` and the factors `fa` are the shop after buying the card offer at an
/// index of `s0`: its price spent, a new card of its kind added, and, with The Courier,
/// a new offer of the same type drawn and priced in its place.
pub open spec fn card_bought(
    s0: ShopState,
    s1: ShopState,
    index: int,
    catalog: Seq<&'static BaseCard>,
    fb: Seq<(u64, u64)>,
    fa: Seq<(u64, u64)>,
) -> bool {
    let (offer, cost) = store_cards(s0.cards)[index];
    let left = store_cards(s0.cards).remove(index);
    &&& exists|mid: GameState, card: Card| {
        &&& gold_spent(s0.game_state, mid, cost as int)
        &&& card.base == offer.base && card.upgrades == 0 && !card.bottled
        &&& #[trigger] mid.card_added(s1.game_state, card)
        &&& if s0.game_state.relics.has("The Courier"@) {
            exists|fm: Seq<(u64, u64)>, new: (CardOffer, u16)| {
                &&& store_cards(s1.cards) == left.insert(index, new)
                &&& #[trigger] s0.game_state.offer_drawn(None, s0.shop_pool(catalog, offer.base._type, None), new.0, fb, fm)
                &&& priced(card_range(*new.0.base).0, card_range(*new.0.base).1, s0.discount_spec().0, s0.discount_spec().1, new.1 as int, fm, fa)
            }
        } else {
            store_cards(s1.cards) == left && fa == fb
        }
    }
    &&& s1 == (ShopState { cards: s1.cards, game_state: s1.game_state, ..s0 })
}

/// Whether `s1` and the factors `fa` are the shop after buying the potion at an index
/// of `s0`: its price spent, the potion in the first empty slot, if any, and, with The
/// Courier, a new potion drawn and priced in its place.
pub open spec fn potion_bought(
    s0: ShopState,
    s1: ShopState,
    index: int,
    catalog: Seq<&'static BasePotion>,
    fb: Seq<(u64, u64)>,
    fa: Seq<(u64, u64)>,
) -> bool {
    let (potion, cost) = store_potions(s0.potions)[index];
    let left = store_potions(s0.potions).remove(index);
    &&& exists|mid: GameState| {
        &&& gold_spent(s0.game_state, mid, cost as int)
        &&& #[trigger] mid.potion_added(s1.game_state, potion)
        &&& if s0.game_state.relics.has("The Courier"@) {
            exists|fm: Seq<(u64, u64)>, new: (&'static BasePotion, u16)| {
                &&& store_potions(s1.potions) == left.insert(index, new)
                &&& #[trigger] potion_drawn(catalog, false, new.0, fb, fm)
                &&& priced(potion_range(new.0.rarity).0, potion_range(new.0.rarity).1, s0.discount_spec().0, s0.discount_spec().1, new.1 as int, fm, fa)
            }
        } else {
            store_potions(s1.potions) == left && fa == fb
        }
    }
    &&& s1 == (ShopState { potions: s1.potions, game_state: s1.game_state, ..s0 })
}

/// Whether a reward is a potion of a catalog.
pub open spec fn catalog_potion_reward(r: Reward, catalog: Seq<&'static BasePotion>) -> bool {
    match r {
        Reward::Potion(p) => catalog.contains(p),
        _ => false,
    }
}

/// Whether a reward is a card choice yet to be drawn, not from a fight, of class cards.
pub open spec fn pending_card_reward(r: Reward) -> bool {
    match r {
        Reward::CardChoice(_, None, false) => true,
        _ => false,
    }
}

/// Whether a shop shows five rewards that each pass a test.
pub open spec fn shows_five(screen: ShopScreenState, test: spec_fn(Reward) -> bool) -> bool {
    match screen {
        ShopScreenState::Reward(r) => reward_items(r.rewards).len() == 5
            && forall|i: int| 0 <= i < 5 ==> test(#[trigger] reward_items(r.rewards)[i]),
        _ => false,
    }
}

impl ShopState {
    /// Buys the card offer at an index, which must be in range, for its price, which the
    /// run must afford; with The Courier, a new offer of the same type takes its place.
    /// A new card of the offer's kind joins the deck (not upgraded by the offer).
    pub fn buy_card(&mut self, index: usize, probability: &mut Probability, catalog: &[&'static BaseCard])
        requires
            index < store_cards(old(self).cards).len(),
            ({
                let (offer, cost) = store_cards(old(self).cards)[index as int];
                &&& old(self).game_state.gold >= cost
                &&& old(self).game_state.relics.has("The Courier"@) ==> old(self).sellable(old(self).shop_pool(catalog@, offer.base._type, None))
                &&& crate::state::common::has_known_cost(*offer.base)
                &&& crate::state::common::is_plain_condition(offer.base.retain)
                &&& old(self).game_state.card_kind_addable(offer.base)
            }),
        ensures
            card_bought(*old(self), *final(self), index as int, catalog@, old(probability).factors@, final(probability).factors@),
    {
        let (offer, cost) = store_cards_remove(&mut self.cards, index);
        if self.game_state.relics.contains("The Courier") {
            let new_offer = self.generate_card_offer(offer.base._type, false, None, probability, catalog);
            store_cards_insert(&mut self.cards, index, new_offer);
        }
        self.spend_gold(cost);
        let ghost mid = self.game_state;
        let card = Card::new(offer.base);
        self.game_state.add_card(card);
        proof {
            assert(mid.card_added(self.game_state, card));
        }
    }

    /// Buys the relic at an index, which must be in range, for its price, which the run
    /// must afford, and takes it; with The Courier, a new relic takes its place. The
    /// Cauldron shows five potion rewards, the Orrery five card rewards, Dolly's Mirror and
    /// the bottles a choice of a card of the deck.
    pub fn buy_relic(
        &mut self,
        index: usize,
        probability: &mut Probability,
        relic_catalog: &[&'static BaseRelic],
        potion_catalog: &[&'static BasePotion],
    )
        requires
            index < store_relics(old(self).relics).len(),
            ({
                let (relic, cost) = store_relics(old(self).relics)[index as int];
                &&& old(self).game_state.gold >= cost
                &&& old(self).game_state.relics.has("The Courier"@) ==> old(self).game_state.relics_drawable(relic_catalog@, None, None, true)
                &&& old(self).game_state.relic_takeable(relic)
                &&& relic.name@ == "Cauldron"@ ==> potions_drawable(potion_catalog@, false)
            }),
        ensures
            screen_after_relic(store_relics(old(self).relics)[index as int].0.name@, old(self).screen_state, final(self).screen_state, potion_catalog@),
            exists|mid: GameState, fm: Seq<(u64, u64)>, fr: Seq<(u64, u64)>, g2: GameState|
                #[trigger] relic_bought(*old(self), *final(self), index as int, relic_catalog@, old(probability).factors@, g2, mid, fm, fr),
            final(self).generated == old(self).generated,
            final(self).updated == old(self).updated,
            final(self).cards == old(self).cards,
            final(self).potions == old(self).potions,
            final(self).can_purge == old(self).can_purge,
    {
        let (relic, cost) = store_relics_remove(&mut self.relics, index);
        let ghost f0 = probability.factors@;
        let ghost g0 = self.game_state;
        let ghost mut new_w: (&'static BaseRelic, u16) = (relic, 0);
        let ghost mut fn_w: Seq<(u64, u64)> = Seq::empty();
        if self.game_state.relics.contains("The Courier") {
            let new_relic = self.generate_relic(false, probability, relic_catalog);
            proof {
                assert(shop_rarity(false) == None::<Rarity>);
                new_w = new_relic;
                fn_w = choose|fm: Seq<(u64, u64)>| {
                    &&& #[trigger] g0.relic_drawn(self.game_state, None, shop_rarity(false), true, relic_catalog@, new_relic.0, f0, fm)
                    &&& priced(relic_range(new_relic.0.rarity).0, relic_range(new_relic.0.rarity).1, old(self).discount_spec().0, old(self).discount_spec().1, new_relic.1 as int, fm, probability.factors@)
                };
            }
            store_relics_insert(&mut self.relics, index, new_relic);
        }
        let ghost g2 = self.game_state;
        let ghost fm = probability.factors@;
        self.spend_gold(cost);
        let ghost mid = self.game_state;
        proof {
            assert(mid.relic_takeable(relic));
        }
        self.game_state.add_relic(relic, probability);
        let ghost fr = probability.factors@;
        let ghost before_screen = self.screen_state;
        self.show_relic_screen(relic, probability, potion_catalog);
        proof {
            let res_relic = store_relics(old(self).relics)[index as int];
            assert(res_relic.0 == relic && res_relic.1 == cost);
            assert(gold_spent(g2, mid, cost as int));
            assert(mid.relic_added(self.game_state, relic, fm, fr));
            if old(self).game_state.relics.has("The Courier"@) {
                assert(store_relics(self.relics) == store_relics(old(self).relics).remove(index as int).insert(index as int, new_w));
                assert(old(self).game_state.relic_drawn(g2, None, None, true, relic_catalog@, new_w.0, old(probability).factors@, fn_w));
                assert(priced(relic_range(new_w.0.rarity).0, relic_range(new_w.0.rarity).1, old(self).discount_spec().0, old(self).discount_spec().1, new_w.1 as int, fn_w, fm));
            } else {
                assert(store_relics(self.relics) == store_relics(old(self).relics).remove(index as int));
                assert(g2 == old(self).game_state);
                assert(fm == old(probability).factors@);
            }
            assert(relic_bought(*old(self), *self, index as int, relic_catalog@, old(probability).factors@, g2, mid, fm, fr));
        }
    }
}

/// Whether the shop `after` follows the shop `before` by buying the relic at an index:
/// `g2` is the run after a new relic was drawn for the shelf with The Courier (with the
/// factors `fm` after its price), `mid` the run after paying, and the run of `after` the
/// run `mid` after taking the relic (with the factors `fr`).
pub open spec fn relic_bought(
    before: ShopState,
    after: ShopState,
    index: int,
    catalog: Seq<&'static BaseRelic>,
    fb: Seq<(u64, u64)>,
    g2: GameState,
    mid: GameState,
    fm: Seq<(u64, u64)>,
    fr: Seq<(u64, u64)>,
) -> bool {
    let (relic, cost) = store_relics(before.relics)[index];
    &&& gold_spent(g2, mid, cost as int)
    &&& mid.relic_added(after.game_state, relic, fm, fr)
    &&& if before.game_state.relics.has("The Courier"@) {
        exists|new: (&'static BaseRelic, u16), fn0: Seq<(u64, u64)>| {
            &&& store_relics(after.relics) == store_relics(before.relics).remove(index).insert(index, new)
            &&& #[trigger] before.game_state.relic_drawn(g2, None, None, true, catalog, new.0, fb, fn0)
            &&& priced(relic_range(new.0.rarity).0, relic_range(new.0.rarity).1, before.discount_spec().0, before.discount_spec().1, new.1 as int, fn0, fm)
        }
    } else {
        store_relics(after.relics) == store_relics(before.relics).remove(index) && g2 == before.game_state && fm == fb
    }
}

/// Whether a shop's screen `after` follows its screen `before` on buying a relic of a
/// name: five potion rewards of the catalog after the Cauldron, five card rewards after
/// the Orrery, a choice of a card of the deck after Dolly's Mirror and the bottles, else
/// unchanged.
pub open spec fn screen_after_relic(n: Seq<char>, before: ShopScreenState, after: ShopScreenState, catalog: Seq<&'static BasePotion>) -> bool {
    if n == "Cauldron"@ {
        shows_five(after, |r: Reward| catalog_potion_reward(r, catalog))
    } else if n == "Orrery"@ {
        shows_five(after, |r: Reward| pending_card_reward(r))
    } else if n == "Dollys Mirror"@ {
        after == ShopScreenState::DeckChoose(DeckOperation::Duplicate)
    } else if n == "Bottled Flame"@ {
        after == ShopScreenState::DeckChoose(DeckOperation::BottleFlame)
    } else if n == "Bottled Lightning"@ {
        after == ShopScreenState::DeckChoose(DeckOperation::BottleLightning)
    } else if n == "Bottled Tornado"@ {
        after == ShopScreenState::DeckChoose(DeckOperation::BottleTornado)
    } else {
        after == before
    }
}

impl ShopState {
    /// Shows the screen that follows buying a relic.
    fn show_relic_screen(&mut self, relic: &'static BaseRelic, probability: &mut Probability, potion_catalog: &[&'static BasePotion])
        requires
            relic.name@ == "Cauldron"@ ==> potions_drawable(potion_catalog@, false),
        ensures
            screen_after_relic(relic.name@, old(self).screen_state, final(self).screen_state, potion_catalog@),
            *final(self) == (ShopState { screen_state: final(self).screen_state, ..*old(self) }),
            relic.name@ != "Cauldron"@ ==> final(probability).factors@ == old(probability).factors@,
    {
        proof {
            reveal_strlit("Cauldron");
            reveal_strlit("Orrery");
            reveal_strlit("Dollys Mirror");
            reveal_strlit("Bottled Flame");
            reveal_strlit("Bottled Lightning");
            reveal_strlit("Bottled Tornado");
        }
        let name = relic.name.as_str();
        if str_eq(name, "Cauldron") {
            let mut rewards: Vec<Reward> = Vec::new();
            let mut i: u8 = 0;
            while i < 5
                invariant
                    0 <= i <= 5,
                    rewards@.len() == i,
                    potions_drawable(potion_catalog@, false),
                    forall|j: int| 0 <= j < i ==> catalog_potion_reward(#[trigger] rewards@[j], potion_catalog@),
                decreases 5 - i,
            {
                let p = random_potion(false, probability, potion_catalog);
                proof {
                    let c = crate::state::game::potion_candidates(potion_catalog@, p.rarity, false);
                    potion_catalog@.lemma_filter_contains_rev(|q: &'static BasePotion| crate::state::game::potion_candidate(*q, p.rarity, false), p);
                }
                rewards.push(Reward::Potion(p));
                i = i + 1;
            }
            self.screen_state = ShopScreenState::Reward(RewardState { rewards: rewards_from(rewards), deck_operation: None, viewing_reward: None });
        } else if str_eq(name, "Orrery") {
            let mut rewards: Vec<Reward> = Vec::new();
            let mut i: u8 = 0;
            while i < 5
                invariant
                    0 <= i <= 5,
                    rewards@.len() == i,
                    forall|j: int| 0 <= j < i ==> pending_card_reward(#[trigger] rewards@[j]),
                decreases 5 - i,
            {
                rewards.push(Reward::CardChoice(offers_from(Vec::new()), None, false));
                i = i + 1;
            }
            self.screen_state = ShopScreenState::Reward(RewardState { rewards: rewards_from(rewards), deck_operation: None, viewing_reward: None });
        } else if str_eq(name, "Dollys Mirror") {
            self.screen_state = ShopScreenState::DeckChoose(DeckOperation::Duplicate);
        } else if str_eq(name, "Bottled Flame") {
            self.screen_state = ShopScreenState::DeckChoose(DeckOperation::BottleFlame);
        } else if str_eq(name, "Bottled Lightning") {
            self.screen_state = ShopScreenState::DeckChoose(DeckOperation::BottleLightning);
        } else if str_eq(name, "Bottled Tornado") {
            self.screen_state = ShopScreenState::DeckChoose(DeckOperation::BottleTornado);
        }
    }
}

// ---- stocking a shop ----
/// Whether `o` (factors `fa`) is a card of the type offered by the shop out of its pool,
/// but the excluded offer's name, and priced (the card on sale at half), from `fb`.
pub open spec fn card_offered(
    s: ShopState,
    catalog: Seq<&'static BaseCard>,
    card_type: CardType,
    on_sale: bool,
    exclude: Option<(CardOffer, u16)>,
    o: (CardOffer, u16),
    fb: Seq<(u64, u64)>,
    fa: Seq<(u64, u64)>,
) -> bool {
    exists|fm: Seq<(u64, u64)>| {
        &&& #[trigger] s.game_state.offer_drawn(None, s.shop_pool(catalog, card_type, exclude), o.0, fb, fm)
        &&& priced(card_range(*o.0.base).0, card_range(*o.0.base).1, s.discount_spec().0,
            if on_sale { s.discount_spec().1 * 2 } else { s.discount_spec().1 }, o.1 as int, fm, fa)
    }
}

/// Whether `o` (factors `fa`) is a colorless card offered by the shop and priced, from
/// `fb`.
pub open spec fn colorless_offered(s: ShopState, catalog: Seq<&'static BaseCard>, o: (CardOffer, u16), fb: Seq<(u64, u64)>, fa: Seq<(u64, u64)>) -> bool {
    exists|fm: Seq<(u64, u64)>| {
        &&& #[trigger] s.game_state.offer_drawn(None, ShopState::colorless_pool(catalog), o.0, fb, fm)
        &&& priced(card_range(*o.0.base).0, card_range(*o.0.base).1, s.discount_spec().0, s.discount_spec().1, o.1 as int, fm, fa)
    }
}

/// Whether the seven card offers of a shop, with the factors between them, are two
/// attacks (the second of another name), two skills (likewise), a power and two
/// colorless cards, the one at `on_sale` among the first five on sale.
pub open spec fn cards_stocked(s: ShopState, catalog: Seq<&'static BaseCard>, on_sale: int, offers: Seq<(CardOffer, u16)>, fs: Seq<Seq<(u64, u64)>>) -> bool {
    &&& offers.len() == 7
    &&& fs.len() == 8
    &&& card_offered(s, catalog, CardType::Attack, on_sale == 0, None, offers[0], fs[0], fs[1])
    &&& card_offered(s, catalog, CardType::Attack, on_sale == 1, Some(offers[0]), offers[1], fs[1], fs[2])
    &&& card_offered(s, catalog, CardType::Skill, on_sale == 2, None, offers[2], fs[2], fs[3])
    &&& card_offered(s, catalog, CardType::Skill, on_sale == 3, Some(offers[2]), offers[3], fs[3], fs[4])
    &&& card_offered(s, catalog, CardType::Power, on_sale == 4, None, offers[4], fs[4], fs[5])
    &&& colorless_offered(s, catalog, offers[5], fs[5], fs[6])
    &&& colorless_offered(s, catalog, offers[6], fs[6], fs[7])
}

/// The rarities of the relics that stocking a shop draws, in order: three that are set
/// aside, then the three for sale; the third of each is a shop relic.
pub open spec fn stock_rarities() -> Seq<Option<Rarity>> {
    seq![None, None, Some(Rarity::Shop), None, None, Some(Rarity::Shop)]
}

/// Whether a relic can be drawn for a shop at each of the rarities, in order, from the
/// run `g`, whatever the earlier draws give.
pub open spec fn relic_draws_safe(g: GameState, rarities: Seq<Option<Rarity>>, catalog: Seq<&'static BaseRelic>) -> bool
    decreases rarities.len(),
{
    if rarities.len() == 0 {
        true
    } else {
        &&& g.relics_drawable(catalog, None, rarities[0], true)
        &&& forall|g1: GameState, r: &'static BaseRelic, fb: Seq<(u64, u64)>, f1: Seq<(u64, u64)>|
            #[trigger] g.relic_drawn(g1, None, rarities[0], true, catalog, r, fb, f1) ==> relic_draws_safe(g1, rarities.drop_first(), catalog)
    }
}

/// Whether the runs `gs` and factors `fs` follow the six relic draws of stocking a shop,
/// the last three priced under the discount `num / den` as the shop's `relics`.
pub open spec fn relics_stocked(
    catalog: Seq<&'static BaseRelic>,
    num: int,
    den: int,
    set_aside: Seq<&'static BaseRelic>,
    relics: Seq<(&'static BaseRelic, u16)>,
    gs: Seq<GameState>,
    fs: Seq<Seq<(u64, u64)>>,
) -> bool {
    let r = stock_rarities();
    &&& set_aside.len() == 3
    &&& relics.len() == 3
    &&& gs.len() == 7
    &&& fs.len() == 10
    &&& gs[0].relic_drawn(gs[1], None, r[0], true, catalog, set_aside[0], fs[0], fs[1])
    &&& gs[1].relic_drawn(gs[2], None, r[1], true, catalog, set_aside[1], fs[1], fs[2])
    &&& gs[2].relic_drawn(gs[3], None, r[2], true, catalog, set_aside[2], fs[2], fs[3])
    &&& gs[3].relic_drawn(gs[4], None, r[3], true, catalog, relics[0].0, fs[3], fs[4])
    &&& priced(relic_range(relics[0].0.rarity).0, relic_range(relics[0].0.rarity).1, num, den, relics[0].1 as int, fs[4], fs[5])
    &&& gs[4].relic_drawn(gs[5], None, r[4], true, catalog, relics[1].0, fs[5], fs[6])
    &&& priced(relic_range(relics[1].0.rarity).0, relic_range(relics[1].0.rarity).1, num, den, relics[1].1 as int, fs[6], fs[7])
    &&& gs[5].relic_drawn(gs[6], None, r[5], true, catalog, relics[2].0, fs[7], fs[8])
    &&& priced(relic_range(relics[2].0.rarity).0, relic_range(relics[2].0.rarity).1, num, den, relics[2].1 as int, fs[8], fs[9])
}

/// Whether `p` (factors `fa`) is a potion drawn and priced under the discount
/// `num / den`, from `fb`.
pub open spec fn potion_offered(catalog: Seq<&'static BasePotion>, num: int, den: int, p: (&'static BasePotion, u16), fb: Seq<(u64, u64)>, fa: Seq<(u64, u64)>) -> bool {
    exists|fm: Seq<(u64, u64)>| {
        &&& #[trigger] potion_drawn(catalog, false, p.0, fb, fm)
        &&& priced(potion_range(p.0.rarity).0, potion_range(p.0.rarity).1, num, den, p.1 as int, fm, fa)
    }
}

/// Whether the three potions of a shop, with the factors between them, are drawn and
/// priced under the discount `num / den`.
pub open spec fn potions_stocked(catalog: Seq<&'static BasePotion>, num: int, den: int, potions: Seq<(&'static BasePotion, u16)>, fs: Seq<Seq<(u64, u64)>>) -> bool {
    &&& potions.len() == 3
    &&& fs.len() == 4
    &&& potion_offered(catalog, num, den, potions[0], fs[0], fs[1])
    &&& potion_offered(catalog, num, den, potions[1], fs[1], fs[2])
    &&& potion_offered(catalog, num, den, potions[2], fs[2], fs[3])
}

/// Whether the stocked shop `s1` (factors `fa`) follows from `s0` (factors `fb`) through
/// the given draws: which card is on sale, the card offers, the relics set aside and for
/// sale, and the potions, in that order.
pub open spec fn stock_draws(
    s0: ShopState,
    s1: ShopState,
    cards: Seq<&'static BaseCard>,
    relic_catalog: Seq<&'static BaseRelic>,
    potion_catalog: Seq<&'static BasePotion>,
    on_sale: int,
    offers: Seq<(CardOffer, u16)>,
    fc: Seq<Seq<(u64, u64)>>,
    set_aside: Seq<&'static BaseRelic>,
    relics: Seq<(&'static BaseRelic, u16)>,
    gs: Seq<GameState>,
    fr: Seq<Seq<(u64, u64)>>,
    potions: Seq<(&'static BasePotion, u16)>,
    fp: Seq<Seq<(u64, u64)>>,
    fb: Seq<(u64, u64)>,
    fa: Seq<(u64, u64)>,
) -> bool {
    &&& 0 <= on_sale < 5
    &&& cards_stocked(s0, cards, on_sale, offers, fc)
    &&& fc[0] == fb.push((1u64, 5u64))
    &&& relics_stocked(relic_catalog, s0.discount_spec().0, s0.discount_spec().1, set_aside, relics, gs, fr)
    &&& gs[0] == s0.game_state
    &&& fr[0] == fc[7]
    &&& potions_stocked(potion_catalog, s0.discount_spec().0, s0.discount_spec().1, potions, fp)
    &&& fp[0] == fr[9]
    &&& fa == fp[3]
    &&& store_cards(s1.cards) == offers
    &&& store_relics(s1.relics) == relics
    &&& store_potions(s1.potions) == potions
    &&& s1 == (ShopState { generated: true, cards: s1.cards, relics: s1.relics, potions: s1.potions, game_state: gs[6], ..s0 })
}

/// Whether `s1` (factors `fa`) is the shop `s0` (factors `fb`) stocked: a shop already
/// stocked stays as it is; else one of the five class cards is drawn to be on sale,
/// seven cards are offered, three relics are drawn and set aside, three relics and three
/// potions are offered, and the shop is stocked.
pub open spec fn shop_generated(
    s0: ShopState,
    s1: ShopState,
    cards: Seq<&'static BaseCard>,
    relic_catalog: Seq<&'static BaseRelic>,
    potion_catalog: Seq<&'static BasePotion>,
    fb: Seq<(u64, u64)>,
    fa: Seq<(u64, u64)>,
) -> bool {
    if s0.generated {
        s1 == s0 && fa == fb
    } else {
        exists|on_sale: int, offers: Seq<(CardOffer, u16)>, fc: Seq<Seq<(u64, u64)>>, set_aside: Seq<&'static BaseRelic>,
            relics: Seq<(&'static BaseRelic, u16)>, gs: Seq<GameState>, fr: Seq<Seq<(u64, u64)>>,
            potions: Seq<(&'static BasePotion, u16)>, fp: Seq<Seq<(u64, u64)>>|
            #[trigger] stock_draws(s0, s1, cards, relic_catalog, potion_catalog, on_sale, offers, fc, set_aside, relics, gs, fr, potions, fp, fb, fa)
    }
}

/// Whether a shop can be stocked: each card pool can be offered from, whatever the
/// first attack and skill drawn; each relic draw has relics to draw from, whatever the
/// earlier ones gave; and potions can be drawn.
pub open spec fn shop_generable(
    s: ShopState,
    cards: Seq<&'static BaseCard>,
    relic_catalog: Seq<&'static BaseRelic>,
    potion_catalog: Seq<&'static BasePotion>,
) -> bool {
    !s.generated ==> {
        &&& shop_cards_ready(s, cards)
        &&& relic_draws_safe(s.game_state, stock_rarities(), relic_catalog)
        &&& potions_drawable(potion_catalog, false)
    }
}

/// Whether each card pool of a shop can be offered from, whatever the first attack and
/// skill drawn.
pub open spec fn shop_cards_ready(s: ShopState, cards: Seq<&'static BaseCard>) -> bool {
    &&& s.sellable(s.shop_pool(cards, CardType::Attack, None))
    &&& s.sellable(s.shop_pool(cards, CardType::Skill, None))
    &&& s.sellable(s.shop_pool(cards, CardType::Power, None))
    &&& s.sellable(ShopState::colorless_pool(cards))
    &&& forall|o: CardOffer, price: u16, fb: Seq<(u64, u64)>, fm: Seq<(u64, u64)>|
        #![trigger s.game_state.offer_drawn(None, s.shop_pool(cards, CardType::Attack, None), o, fb, fm), s.shop_pool(cards, CardType::Attack, Some((o, price)))]
        s.game_state.offer_drawn(None, s.shop_pool(cards, CardType::Attack, None), o, fb, fm)
            ==> s.sellable(s.shop_pool(cards, CardType::Attack, Some((o, price))))
    &&& forall|o: CardOffer, price: u16, fb: Seq<(u64, u64)>, fm: Seq<(u64, u64)>|
        #![trigger s.game_state.offer_drawn(None, s.shop_pool(cards, CardType::Skill, None), o, fb, fm), s.shop_pool(cards, CardType::Skill, Some((o, price)))]
        s.game_state.offer_drawn(None, s.shop_pool(cards, CardType::Skill, None), o, fb, fm)
            ==> s.sellable(s.shop_pool(cards, CardType::Skill, Some((o, price))))
}

/// The draws of stocking a shop from the `k`-th relic draw on.
pub open spec fn rarities_from(k: int) -> Seq<Option<Rarity>> {
    stock_rarities().subrange(k, 6)
}

/// Drawing the `k`-th relic of stocking a shop leaves the later draws safe.
proof fn lemma_draw_on(g: GameState, g1: GameState, r: &'static BaseRelic, catalog: Seq<&'static BaseRelic>, fb: Seq<(u64, u64)>, f1: Seq<(u64, u64)>, k: int)
    requires
        0 <= k < 6,
        relic_draws_safe(g, rarities_from(k), catalog),
        g.relic_drawn(g1, None, stock_rarities()[k], true, catalog, r, fb, f1),
    ensures
        relic_draws_safe(g1, rarities_from(k + 1), catalog),
{
    assert(rarities_from(k)[0] == stock_rarities()[k]);
    assert(rarities_from(k).drop_first() =~= rarities_from(k + 1));
}

impl ShopState {
    /// The seven card offers of a shop (see `cards_stocked`).
    fn offer_cards(&self, on_sale: usize, probability: &mut Probability, cards: &[&'static BaseCard]) -> (res: Vec<(CardOffer, u16)>)
        requires
            shop_cards_ready(*self, cards@),
        ensures
            exists|fc: Seq<Seq<(u64, u64)>>| {
                &&& #[trigger] cards_stocked(*self, cards@, on_sale as int, res@, fc)
                &&& fc[0] == old(probability).factors@
                &&& fc[7] == final(probability).factors@
            },
    {
        let ghost s0 = *self;
        let ghost fc0 = probability.factors@;
        let attack1 = self.generate_card_offer(CardType::Attack, on_sale == 0, None, probability, cards);
        let ghost fc1 = probability.factors@;
        proof {
            let fm = choose|fm: Seq<(u64, u64)>| #[trigger] s0.game_state.offer_drawn(None, s0.shop_pool(cards@, CardType::Attack, None), attack1.0, fc0, fm)
                && priced(card_range(*attack1.0.base).0, card_range(*attack1.0.base).1, s0.discount_spec().0,
                if on_sale == 0 { s0.discount_spec().1 * 2 } else { s0.discount_spec().1 }, attack1.1 as int, fm, fc1);
            assert(s0.game_state.offer_drawn(None, s0.shop_pool(cards@, CardType::Attack, None), attack1.0, fc0, fm));
            assert(s0.sellable(s0.shop_pool(cards@, CardType::Attack, Some((attack1.0, attack1.1)))));
        }
        let attack2 = self.generate_card_offer(CardType::Attack, on_sale == 1, Some(attack1), probability, cards);
        let ghost fc2 = probability.factors@;
        let skill1 = self.generate_card_offer(CardType::Skill, on_sale == 2, None, probability, cards);
        let ghost fc3 = probability.factors@;
        proof {
            let fm = choose|fm: Seq<(u64, u64)>| #[trigger] s0.game_state.offer_drawn(None, s0.shop_pool(cards@, CardType::Skill, None), skill1.0, fc2, fm)
                && priced(card_range(*skill1.0.base).0, card_range(*skill1.0.base).1, s0.discount_spec().0,
                if on_sale == 2 { s0.discount_spec().1 * 2 } else { s0.discount_spec().1 }, skill1.1 as int, fm, fc3);
            assert(s0.game_state.offer_drawn(None, s0.shop_pool(cards@, CardType::Skill, None), skill1.0, fc2, fm));
            assert(s0.sellable(s0.shop_pool(cards@, CardType::Skill, Some((skill1.0, skill1.1)))));
        }
        let skill2 = self.generate_card_offer(CardType::Skill, on_sale == 3, Some(skill1), probability, cards);
        let ghost fc4 = probability.factors@;
        let power = self.generate_card_offer(CardType::Power, on_sale == 4, None, probability, cards);
        let ghost fc5 = probability.factors@;
        let colorless1 = self.generate_colorless_offer(false, probability, cards);
        let ghost fc6 = probability.factors@;
        let colorless2 = self.generate_colorless_offer(true, probability, cards);
        let ghost fc7 = probability.factors@;
        let res = vec![attack1, attack2, skill1, skill2, power, colorless1, colorless2];
        proof {
            let fc = seq![fc0, fc1, fc2, fc3, fc4, fc5, fc6, fc7];
            assert(res@ =~= seq![attack1, attack2, skill1, skill2, power, colorless1, colorless2]);
            assert(cards_stocked(*self, cards@, on_sale as int, res@, fc));
        }
        res
    }

    /// The six relic draws of stocking a shop: three set aside, then three offered (see
    /// `relics_stocked`).
    fn draw_relics(&mut self, probability: &mut Probability, catalog: &[&'static BaseRelic]) -> (res: (Vec<&'static BaseRelic>, Vec<(&'static BaseRelic, u16)>))
        requires
            relic_draws_safe(old(self).game_state, stock_rarities(), catalog@),
        ensures
            exists|gs: Seq<GameState>, fr: Seq<Seq<(u64, u64)>>| {
                &&& #[trigger] relics_stocked(catalog@, old(self).discount_spec().0, old(self).discount_spec().1, res.0@, res.1@, gs, fr)
                &&& gs[0] == old(self).game_state
                &&& gs[6] == final(self).game_state
                &&& fr[0] == old(probability).factors@
                &&& fr[9] == final(probability).factors@
            },
            *final(self) == (ShopState { game_state: final(self).game_state, ..*old(self) }),
    {
        let ghost s0 = *self;
        let ghost g0 = self.game_state;
        let ghost fr0 = probability.factors@;
        proof {
            assert(rarities_from(0) =~= stock_rarities());
        }
        let aside1 = self.game_state.random_relic(None, None, true, probability, catalog);
        let ghost g1 = self.game_state;
        let ghost fr1 = probability.factors@;
        proof {
            lemma_draw_on(g0, g1, aside1, catalog@, fr0, fr1, 0);
            assert(rarities_from(1)[0] == stock_rarities()[1]);
        }
        let aside2 = self.game_state.random_relic(None, None, true, probability, catalog);
        let ghost g2 = self.game_state;
        let ghost fr2 = probability.factors@;
        proof {
            lemma_draw_on(g1, g2, aside2, catalog@, fr1, fr2, 1);
            assert(rarities_from(2)[0] == stock_rarities()[2]);
        }
        let aside3 = self.game_state.random_relic(None, Some(Rarity::Shop), true, probability, catalog);
        let ghost g3 = self.game_state;
        let ghost fr3 = probability.factors@;
        proof {
            lemma_draw_on(g2, g3, aside3, catalog@, fr2, fr3, 2);
            assert(rarities_from(3)[0] == stock_rarities()[3]);
        }
        let ghost sh3 = *self;
        let relic1 = self.generate_relic(false, probability, catalog);
        let ghost g4 = self.game_state;
        let ghost fr5 = probability.factors@;
        let ghost fr4 = choose|fm: Seq<(u64, u64)>| #[trigger] sh3.game_state.relic_drawn(g4, None, shop_rarity(false), true, catalog@, relic1.0, fr3, fm)
            && priced(relic_range(relic1.0.rarity).0, relic_range(relic1.0.rarity).1, sh3.discount_spec().0, sh3.discount_spec().1, relic1.1 as int, fm, fr5);
        proof {
            lemma_draw_on(g3, g4, relic1.0, catalog@, fr3, fr4, 3);
            assert(rarities_from(4)[0] == stock_rarities()[4]);
        }
        let ghost sh4 = *self;
        let relic2 = self.generate_relic(false, probability, catalog);
        let ghost g5 = self.game_state;
        let ghost fr7 = probability.factors@;
        let ghost fr6 = choose|fm: Seq<(u64, u64)>| #[trigger] sh4.game_state.relic_drawn(g5, None, shop_rarity(false), true, catalog@, relic2.0, fr5, fm)
            && priced(relic_range(relic2.0.rarity).0, relic_range(relic2.0.rarity).1, sh4.discount_spec().0, sh4.discount_spec().1, relic2.1 as int, fm, fr7);
        proof {
            lemma_draw_on(g4, g5, relic2.0, catalog@, fr5, fr6, 4);
            assert(rarities_from(5)[0] == stock_rarities()[5]);
        }
        let ghost sh5 = *self;
        let relic3 = self.generate_relic(true, probability, catalog);
        let ghost g6 = self.game_state;
        let ghost fr9 = probability.factors@;
        let ghost fr8 = choose|fm: Seq<(u64, u64)>| #[trigger] sh5.game_state.relic_drawn(g6, None, shop_rarity(true), true, catalog@, relic3.0, fr7, fm)
            && priced(relic_range(relic3.0.rarity).0, relic_range(relic3.0.rarity).1, sh5.discount_spec().0, sh5.discount_spec().1, relic3.1 as int, fm, fr9);
        let set_aside = vec![aside1, aside2, aside3];
        let relics = vec![relic1, relic2, relic3];
        let ghost gs = seq![g0, g1, g2, g3, g4, g5, g6];
        let ghost fr = seq![fr0, fr1, fr2, fr3, fr4, fr5, fr6, fr7, fr8, fr9];
        proof {
            assert(set_aside@ =~= seq![aside1, aside2, aside3]);
            assert(relics@ =~= seq![relic1, relic2, relic3]);
            assert(relics_stocked(catalog@, s0.discount_spec().0, s0.discount_spec().1, set_aside@, relics@, gs, fr));
            assert(gs[0] == s0.game_state && gs[6] == self.game_state && fr[0] == fr0 && fr[9] == probability.factors@);
        }
        let res = (set_aside, relics);
        proof {
            assert(relics_stocked(catalog@, old(self).discount_spec().0, old(self).discount_spec().1, res.0@, res.1@, gs, fr));
        }
        res
    }

    /// The three potions offered by a shop (see `potions_stocked`).
    fn offer_potions(&self, probability: &mut Probability, catalog: &[&'static BasePotion]) -> (res: Vec<(&'static BasePotion, u16)>)
        requires
            potions_drawable(catalog@, false),
        ensures
            exists|fp: Seq<Seq<(u64, u64)>>| {
                &&& #[trigger] potions_stocked(catalog@, self.discount_spec().0, self.discount_spec().1, res@, fp)
                &&& fp[0] == old(probability).factors@
                &&& fp[3] == final(probability).factors@
            },
    {
        let ghost fp0 = probability.factors@;
        let potion1 = self.generate_potion(probability, catalog);
        let ghost fp1 = probability.factors@;
        let potion2 = self.generate_potion(probability, catalog);
        let ghost fp2 = probability.factors@;
        let potion3 = self.generate_potion(probability, catalog);
        let ghost fp3 = probability.factors@;
        let res = vec![potion1, potion2, potion3];
        proof {
            let fp = seq![fp0, fp1, fp2, fp3];
            assert(res@ =~= seq![potion1, potion2, potion3]);
            assert(potions_stocked(catalog@, self.discount_spec().0, self.discount_spec().1, res@, fp));
        }
        res
    }

    /// Stocks the shop, once (see `shop_generated`).
    pub fn generate(
        &mut self,
        probability: &mut Probability,
        cards: &[&'static BaseCard],
        relic_catalog: &[&'static BaseRelic],
        potion_catalog: &[&'static BasePotion],
    )
        requires
            shop_generable(*old(self), cards@, relic_catalog@, potion_catalog@),
        ensures
            shop_generated(*old(self), *final(self), cards@, relic_catalog@, potion_catalog@, old(probability).factors@, final(probability).factors@),
    {
        if self.generated {
            return;
        }
        let ghost s0 = *self;
        let ghost f0 = probability.factors@;
        let on_sale = probability.range(5);
        let ghost fc0 = probability.factors@;
        let offers = self.offer_cards(on_sale, probability, cards);
        let ghost fc = choose|fc: Seq<Seq<(u64, u64)>>| #[trigger] cards_stocked(s0, cards@, on_sale as int, offers@, fc)
            && fc[0] == fc0 && fc[7] == probability.factors@;
        self.cards = store_cards_from(offers);
        let ghost s1 = *self;
        let (set_aside, relics) = self.draw_relics(probability, relic_catalog);
        let ghost fr9 = probability.factors@;
        let ghost (gs, fr) = choose|gs: Seq<GameState>, fr: Seq<Seq<(u64, u64)>>| #[trigger] relics_stocked(relic_catalog@, s1.discount_spec().0,
            s1.discount_spec().1, set_aside@, relics@, gs, fr) && gs[0] == s1.game_state && gs[6] == self.game_state && fr[0] == fc[7] && fr[9] == fr9;
        self.relics = store_relics_from(relics);
        let potions = self.offer_potions(probability, potion_catalog);
        let ghost fp = choose|fp: Seq<Seq<(u64, u64)>>| #[trigger] potions_stocked(potion_catalog@, self.discount_spec().0, self.discount_spec().1, potions@, fp)
            && fp[0] == fr9 && fp[3] == probability.factors@;
        self.potions = store_potions_from(potions);
        self.generated = true;
        proof {
            assert(stock_draws(s0, *self, cards@, relic_catalog@, potion_catalog@, on_sale as int, offers@, fc, set_aside@, relics@, gs, fr, potions@, fp, f0, probability.factors@));
        }
    }
}

} // verus!
