//! An event: its choices on screen, its counters, and how its effects play out.

use vstd::prelude::*;

use crate::models::cards::BaseCard;
use crate::models::common::{Amount, DeckOperation, Effect};
use crate::models::events::{self, BaseEvent};
use crate::models::potions::BasePotion;
use crate::models::relics::BaseRelic;
use crate::spireai::references::{CardReference, RelicReference};
use crate::state::common::{RewardState, Vars};
use crate::state::game::GameState;
use crate::state::probability::Probability;

verus! {

/// What an event shows besides its choices.
#[derive(PartialEq, Eq, Hash, Clone, Debug)]
pub enum EventScreenState {
    Rewards(RewardState),
    DeckChoose(DeckOperation, usize),
}

/// An event, with the run of the player in it.
#[derive(PartialEq, Eq, Clone, Debug)]
pub struct EventState {
    pub base: &'static BaseEvent,
    pub game_state: GameState,
    pub vars: Vars,
    pub variant: Option<String>,
    pub variant_cards: Vec<CardReference>,
    pub variant_relics: Vec<RelicReference>,
    pub variant_amount: Option<u16>,
    pub available_choices: Vec<String>,
    pub screen_state: Option<EventScreenState>,
}

/// The names of the choices of an event that it offers first.
pub open spec fn initial_choices(base: BaseEvent) -> Seq<Seq<char>> {
    base.choices@.filter(|c: crate::models::events::BaseEventChoice| c.initial).map_values(
        |c: crate::models::events::BaseEventChoice| c.name@,
    )
}

/// The names of a list of strings.
pub open spec fn names_of(v: Seq<String>) -> Seq<Seq<char>> {
    v.map_values(|s: String| s@)
}

impl EventState {
    /// An event just entered: no counters, variant or choices made yet, and the choices
    /// it offers first on screen.
    pub fn new(base: &'static BaseEvent, game_state: GameState) -> (res: Self)
        ensures
            res.base == base,
            res.game_state == game_state,
            res.vars == Vars::new_spec(),
            res.variant is None,
            res.variant_cards@.len() == 0,
            res.variant_relics@.len() == 0,
            res.variant_amount is None,
            names_of(res.available_choices@) == initial_choices(*base),
            res.screen_state is None,
    {
        let ghost pred = |c: crate::models::events::BaseEventChoice| c.initial;
        let ghost name = |c: crate::models::events::BaseEventChoice| c.name@;
        let mut choices: Vec<String> = Vec::new();
        let mut i: usize = 0;
        while i < base.choices.len()
            invariant
                0 <= i <= base.choices@.len(),
                pred == (|c: crate::models::events::BaseEventChoice| c.initial),
                name == (|c: crate::models::events::BaseEventChoice| c.name@),
                names_of(choices@) == base.choices@.take(i as int).filter(pred).map_values(name),
            decreases base.choices@.len() - i,
        {
            let ghost before = choices@;
            if base.choices[i].initial {
                let n = base.choices[i].name.clone();
                choices.push(n);
                proof {
                    assert(names_of(choices@) =~= names_of(before).push(base.choices@[i as int].name@));
                }
            }
            proof {
                let t = base.choices@.take(i + 1);
                assert(t.drop_last() =~= base.choices@.take(i as int));
                assert(t.last() == base.choices@[i as int]);
                reveal_with_fuel(Seq::<_>::filter, 1);
                if base.choices@[i as int].initial {
                    assert(t.filter(pred) =~= base.choices@.take(i as int).filter(pred).push(base.choices@[i as int]));
                    assert(t.filter(pred).map_values(name) =~= base.choices@.take(i as int).filter(pred).map_values(name).push(base.choices@[i as int].name@));
                } else {
                    assert(t.filter(pred) =~= base.choices@.take(i as int).filter(pred));
                }
                assert(names_of(choices@) =~= t.filter(pred).map_values(name));
            }
            i = i + 1;
        }
        proof {
            assert(base.choices@.take(base.choices@.len() as int) =~= base.choices@);
        }
        Self {
            base,
            vars: Vars::new(),
            variant: None,
            variant_cards: Vec::new(),
            variant_relics: Vec::new(),
            variant_amount: None,
            available_choices: choices,
            game_state,
            screen_state: None,
        }
    }

    /// The event of a name in a catalog, just entered.
    pub fn by_name(catalog: &[&'static BaseEvent], name: &str, game_state: GameState) -> (res: Self)
        requires
            events::has_event_named(catalog@, name@),
        ensures
            res.base.name@ == name@,
            exists|i: int|
                0 <= i < catalog@.len() && catalog@[i] == res.base && forall|j: int|
                    0 <= j < i ==> (#[trigger] catalog@[j]).name@ != name@,
            res.game_state == game_state,
            res.vars == Vars::new_spec(),
            res.variant is None,
            res.variant_cards@.len() == 0,
            res.variant_relics@.len() == 0,
            res.variant_amount is None,
            names_of(res.available_choices@) == initial_choices(*res.base),
            res.screen_state is None,
    {
        Self::new(events::by_name(catalog, name), game_state)
    }
}


/// Whether `after`, with the factors `fa`, is the event `before`, with `fb`, after an
/// effect: new choices on screen, a counter set, raised or reset, or else the effect on
/// the run; only the last draws anything.
pub open spec fn effect_step(
    before: EventState,
    after: EventState,
    effect: Effect,
    cards: Seq<&'static BaseCard>,
    potions: Seq<&'static BasePotion>,
    relic_catalog: Seq<&'static BaseRelic>,
    fb: Seq<(u64, u64)>,
    fa: Seq<(u64, u64)>,
) -> bool {
    &&& match effect {
        Effect::ShowChoices(choices) => names_of(after.available_choices@) == names_of(choices@)
            && after == (EventState { available_choices: after.available_choices, ..before }),
        Effect::SetN(a) => after == (EventState {
            vars: Vars { n: before.amount_value(a) as i16, n_reset: before.amount_value(a) as i16, ..before.vars },
            ..before
        }),
        Effect::AddN(a) => after == (EventState {
            vars: Vars { n: (before.vars.n + before.amount_value(a)) as i16, ..before.vars },
            ..before
        }),
        Effect::SetX(a) => after == (EventState {
            vars: Vars { x: before.amount_value(a) as i16, ..before.vars },
            ..before
        }),
        Effect::AddX(a) => after == (EventState {
            vars: Vars { x: (before.vars.x + before.amount_value(a)) as i16, ..before.vars },
            ..before
        }),
        Effect::ResetN => after == (EventState { vars: Vars { n: before.vars.n_reset, ..before.vars }, ..before }),
        _ => {
            &&& before.game_state.effect_applied(after.game_state, effect, cards, potions, relic_catalog, fb, fa)
            &&& after == (EventState { game_state: after.game_state, ..before })
        },
    }
    &&& !(effect is ShowChoices || effect is SetN || effect is AddN || effect is SetX || effect is AddX || effect is ResetN)
        || fa == fb
}

/// Whether effects can be applied to an event one after the other, whatever chance
/// decides: the first can be applied, and the rest can after each outcome of it.
pub open spec fn effects_known(
    e: EventState,
    effects: Seq<Effect>,
    cards: Seq<&'static BaseCard>,
    potions: Seq<&'static BasePotion>,
    relic_catalog: Seq<&'static BaseRelic>,
) -> bool
    decreases effects.len(),
{
    if effects.len() == 0 {
        true
    } else {
        &&& e.effect_known(effects[0], cards, potions, relic_catalog)
        &&& forall|n: EventState, fb: Seq<(u64, u64)>, fa: Seq<(u64, u64)>|
            #[trigger] effect_step(e, n, effects[0], cards, potions, relic_catalog, fb, fa)
                ==> effects_known(n, effects.drop_first(), cards, potions, relic_catalog)
    }
}

/// Whether `after`, with `fa`, is the event `before`, with `fb`, after the effects one
/// after the other.
pub open spec fn effects_applied(
    before: EventState,
    after: EventState,
    effects: Seq<Effect>,
    cards: Seq<&'static BaseCard>,
    potions: Seq<&'static BasePotion>,
    relic_catalog: Seq<&'static BaseRelic>,
    fb: Seq<(u64, u64)>,
    fa: Seq<(u64, u64)>,
) -> bool
    decreases effects.len(),
{
    if effects.len() == 0 {
        after == before && fa == fb
    } else {
        exists|m: EventState, fm: Seq<(u64, u64)>|
            #[trigger] effect_step(before, m, effects[0], cards, potions, relic_catalog, fb, fm)
                && effects_applied(m, after, effects.drop_first(), cards, potions, relic_catalog, fm, fa)
    }
}

impl EventState {
    /// The value of an amount in an event: its counters `n`, `x` and `-x`, products and
    /// sums valued in the event, and else the value in the run.
    pub open spec fn amount_value(&self, a: Amount) -> int
        decreases a, 0int,
    {
        match a {
            Amount::N => self.vars.n as int,
            Amount::X => self.vars.x as int,
            Amount::NegX => -self.vars.x,
            Amount::Mult(v) => self.amounts_product(v@, v@.len() as int),
            Amount::Sum(v) => self.amounts_sum(v@, v@.len() as int),
            _ => self.game_state.amount_value(a),
        }
    }

    /// The product of the values of the first `k` amounts of a list in the event.
    pub open spec fn amounts_product(&self, s: Seq<Amount>, k: int) -> int
        decreases s, k,
    {
        if k <= 0 || k > s.len() {
            1
        } else {
            self.amounts_product(s, k - 1) * self.amount_value(s[k - 1])
        }
    }

    /// The sum of the values of the first `k` amounts of a list in the event.
    pub open spec fn amounts_sum(&self, s: Seq<Amount>, k: int) -> int
        decreases s, k,
    {
        if k <= 0 || k > s.len() {
            0
        } else {
            self.amounts_sum(s, k - 1) + self.amount_value(s[k - 1])
        }
    }

    /// Whether an amount can be valued in the event, each partial product and sum within
    /// the range of an `i16`.
    pub open spec fn amount_fits(&self, a: Amount) -> bool
        decreases a, 0int,
    {
        match a {
            Amount::N | Amount::X => true,
            Amount::NegX => self.vars.x != i16::MIN,
            Amount::Mult(v) => self.product_fits(v@, v@.len() as int),
            Amount::Sum(v) => self.sum_fits(v@, v@.len() as int),
            _ => self.game_state.amount_fits(a),
        }
    }

    /// Whether the first `k` amounts of a list can be valued, each partial product in
    /// range.
    pub open spec fn product_fits(&self, s: Seq<Amount>, k: int) -> bool
        decreases s, k,
    {
        if k <= 0 || k > s.len() {
            true
        } else {
            &&& self.product_fits(s, k - 1)
            &&& self.amount_fits(s[k - 1])
            &&& i16::MIN <= self.amounts_product(s, k) <= i16::MAX
        }
    }

    /// Whether the first `k` amounts of a list can be valued, each partial sum in range.
    pub open spec fn sum_fits(&self, s: Seq<Amount>, k: int) -> bool
        decreases s, k,
    {
        if k <= 0 || k > s.len() {
            true
        } else {
            &&& self.sum_fits(s, k - 1)
            &&& self.amount_fits(s[k - 1])
            &&& i16::MIN <= self.amounts_sum(s, k) <= i16::MAX
        }
    }

    /// Fitting the first `k` amounts means fitting each shorter prefix.
    proof fn lemma_product_fits_prefix(&self, s: Seq<Amount>, k: int, j: int)
        requires
            self.product_fits(s, k),
            0 < j <= k <= s.len(),
        ensures
            self.amount_fits(s[j - 1]),
            i16::MIN <= self.amounts_product(s, j) <= i16::MAX,
        decreases k - j,
    {
        if j < k {
            self.lemma_product_fits_prefix(s, k - 1, j);
        }
    }

    /// Fitting the first `k` amounts means fitting each shorter prefix.
    proof fn lemma_sum_fits_prefix(&self, s: Seq<Amount>, k: int, j: int)
        requires
            self.sum_fits(s, k),
            0 < j <= k <= s.len(),
        ensures
            self.amount_fits(s[j - 1]),
            i16::MIN <= self.amounts_sum(s, j) <= i16::MAX,
        decreases k - j,
    {
        if j < k {
            self.lemma_sum_fits_prefix(s, k - 1, j);
        }
    }

    /// The value of an amount in the event.
    pub fn eval_amount(&self, amount: &Amount) -> (res: i16)
        requires
            self.amount_fits(*amount),
        ensures
            res == self.amount_value(*amount),
        decreases *amount,
    {
        match amount {
            Amount::N => self.vars.n,
            Amount::X => self.vars.x,
            Amount::NegX => -self.vars.x,
            Amount::Mult(amount_mult) => {
                let mut product: i16 = 1;
                let mut i: usize = 0;
                while i < amount_mult.len()
                    invariant
                        0 <= i <= amount_mult@.len(),
                        *amount == Amount::Mult(*amount_mult),
                        self.product_fits(amount_mult@, amount_mult@.len() as int),
                        product == self.amounts_product(amount_mult@, i as int),
                    decreases amount_mult@.len() - i,
                {
                    proof {
                        self.lemma_product_fits_prefix(amount_mult@, amount_mult@.len() as int, i + 1);
                        assert(decreases_to!(*amount => (*amount)->Mult_0));
                        assert(decreases_to!(*amount_mult => amount_mult@));
                        assert(decreases_to!(amount_mult@ => amount_mult@[i as int]));
                        assert(decreases_to!(*amount => amount_mult@[i as int]));
                    }
                    let value = self.eval_amount(&amount_mult[i]);
                    product = product * value;
                    i = i + 1;
                }
                product
            },
            Amount::Sum(amount_sum) => {
                let mut sum: i16 = 0;
                let mut i: usize = 0;
                while i < amount_sum.len()
                    invariant
                        0 <= i <= amount_sum@.len(),
                        *amount == Amount::Sum(*amount_sum),
                        self.sum_fits(amount_sum@, amount_sum@.len() as int),
                        sum == self.amounts_sum(amount_sum@, i as int),
                    decreases amount_sum@.len() - i,
                {
                    proof {
                        self.lemma_sum_fits_prefix(amount_sum@, amount_sum@.len() as int, i + 1);
                        assert(decreases_to!(*amount => (*amount)->Sum_0));
                        assert(decreases_to!(*amount_sum => amount_sum@));
                        assert(decreases_to!(amount_sum@ => amount_sum@[i as int]));
                        assert(decreases_to!(*amount => amount_sum@[i as int]));
                    }
                    let value = self.eval_amount(&amount_sum[i]);
                    sum = sum + value;
                    i = i + 1;
                }
                sum
            },
            _ => self.game_state.eval_amount(amount),
        }
    }

    /// Whether an effect can be applied in the event: one on its choices or counters,
    /// without overflow, or else one the run can take.
    pub open spec fn effect_known(
        &self,
        effect: Effect,
        cards: Seq<&'static BaseCard>,
        potions: Seq<&'static BasePotion>,
        relic_catalog: Seq<&'static BaseRelic>,
    ) -> bool {
        match effect {
            Effect::ShowChoices(_) | Effect::ResetN => true,
            Effect::SetN(a) | Effect::SetX(a) => self.amount_fits(a),
            Effect::AddN(a) => self.amount_fits(a) && i16::MIN <= self.vars.n + self.amount_value(a) <= i16::MAX,
            Effect::AddX(a) => self.amount_fits(a) && i16::MIN <= self.vars.x + self.amount_value(a) <= i16::MAX,
            _ => self.game_state.effect_known(effect, cards, potions, relic_catalog),
        }
    }

    /// Applies an effect in the event: new choices on screen, a counter set, raised or
    /// reset, or else the effect on the run.
    pub fn eval_effect(
        &mut self,
        effect: &Effect,
        probability: &mut Probability,
        cards: &[&'static BaseCard],
        potions: &[&'static BasePotion],
        relic_catalog: &[&'static BaseRelic],
    )
        requires
            old(self).effect_known(*effect, cards@, potions@, relic_catalog@),
        ensures
            effect_step(*old(self), *final(self), *effect, cards@, potions@, relic_catalog@, old(probability).factors@, final(probability).factors@),
    {
        match effect {
            Effect::ShowChoices(choices) => {
                let mut shown: Vec<String> = Vec::new();
                let mut i: usize = 0;
                while i < choices.len()
                    invariant
                        0 <= i <= choices@.len(),
                        names_of(shown@) == names_of(choices@.take(i as int)),
                    decreases choices@.len() - i,
                {
                    shown.push(choices[i].clone());
                    proof {
                        assert(names_of(choices@.take(i + 1)) =~= names_of(choices@.take(i as int)).push(choices@[i as int]@));
                        assert(names_of(shown@) =~= names_of(choices@.take(i + 1)));
                    }
                    i = i + 1;
                }
                proof {
                    assert(choices@.take(choices@.len() as int) =~= choices@);
                }
                self.available_choices = shown;
            },
            Effect::SetN(n) => {
                let amount = self.eval_amount(n);
                self.vars.n = amount;
                self.vars.n_reset = amount;
            },
            Effect::AddN(n) => {
                let amount = self.eval_amount(n);
                self.vars.n = self.vars.n + amount;
            },
            Effect::SetX(x) => {
                let amount = self.eval_amount(x);
                self.vars.x = amount;
            },
            Effect::AddX(x) => {
                let amount = self.eval_amount(x);
                self.vars.x = self.vars.x + amount;
            },
            Effect::ResetN => {
                self.vars.n = self.vars.n_reset;
            },
            _ => {
                self.game_state.eval_effect(effect, probability, cards, potions, relic_catalog);
            },
        }
    }

    /// Applies effects to the event one after the other.
    pub fn eval_effects(
        &mut self,
        effects: &[Effect],
        probability: &mut Probability,
        cards: &[&'static BaseCard],
        potions: &[&'static BasePotion],
        relic_catalog: &[&'static BaseRelic],
    )
        requires
            effects_known(*old(self), effects@, cards@, potions@, relic_catalog@),
        ensures
            effects_applied(
                *old(self),
                *final(self),
                effects@,
                cards@,
                potions@,
                relic_catalog@,
                old(probability).factors@,
                final(probability).factors@,
            ),
    {
        let ghost e0 = *self;
        let ghost f0 = probability.factors@;
        let mut i: usize = 0;
        proof {
            assert(effects@.skip(0) =~= effects@);
        }
        while i < effects.len()
            invariant
                0 <= i <= effects@.len(),
                effects_known(*self, effects@.skip(i as int), cards@, potions@, relic_catalog@),
                forall|n: EventState, fa: Seq<(u64, u64)>|
                    #[trigger] effects_applied(*self, n, effects@.skip(i as int), cards@, potions@, relic_catalog@, probability.factors@, fa)
                        ==> effects_applied(e0, n, effects@, cards@, potions@, relic_catalog@, f0, fa),
            decreases effects@.len() - i,
        {
            let ghost before = *self;
            let ghost fb = probability.factors@;
            let ghost rest = effects@.skip(i as int);
            proof {
                assert(rest[0] == effects@[i as int]);
            }
            self.eval_effect(&effects[i], probability, cards, potions, relic_catalog);
            proof {
                assert(rest.drop_first() =~= effects@.skip(i + 1));
                assert(effect_step(before, *self, rest[0], cards@, potions@, relic_catalog@, fb, probability.factors@));
                assert forall|n: EventState, fa: Seq<(u64, u64)>|
                    #[trigger] effects_applied(*self, n, effects@.skip(i + 1), cards@, potions@, relic_catalog@, probability.factors@, fa)
                    implies effects_applied(e0, n, effects@, cards@, potions@, relic_catalog@, f0, fa) by {
                    assert(effects_applied(before, n, rest, cards@, potions@, relic_catalog@, fb, fa));
                }
            }
            i = i + 1;
        }
        proof {
            assert(effects_applied(*self, *self, effects@.skip(i as int), cards@, potions@, relic_catalog@, probability.factors@, probability.factors@));
        }
    }
}

} // verus!
