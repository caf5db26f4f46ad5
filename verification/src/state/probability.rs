//! The chance of an outcome: the random draws that lead to it, and the exact factors
//! by which each draw multiplies its probability.

use vstd::prelude::*;

use rand::seq::{IteratorRandom, SliceRandom};
use rand::Rng;

verus! {

#[verifier::external_type_specification]
#[verifier::external_body]
pub struct ExThreadRng(rand::rngs::ThreadRng);

/// `Clone` of `rand::rngs::ThreadRng`: a handle on the same thread-local generator.
pub assume_specification[ <rand::rngs::ThreadRng as Clone>::clone ](r: &rand::rngs::ThreadRng) -> rand::rngs::ThreadRng;

/// `rand::thread_rng`: the generator of the current thread, seeded by the system.
#[verifier::external_body]
fn thread_rng() -> (res: rand::rngs::ThreadRng) {
    rand::thread_rng()
}

/// `Rng::gen_range(0..max)`: a number below `max`, drawn uniformly. The range must not
/// be empty.
#[verifier::external_body]
fn gen_below(rng: &mut rand::rngs::ThreadRng, max: usize) -> (res: usize)
    requires
        max > 0,
    ensures
        res < max,
{
    rng.gen_range(0..max)
}

/// `IteratorRandom::choose`: one of the items at random; `None` if and only if there
/// are none.
#[verifier::external_body]
fn iter_choose<T>(rng: &mut rand::rngs::ThreadRng, items: Vec<T>) -> (res: Option<T>)
    ensures
        res is None <==> items@.len() == 0,
        res matches Some(x) ==> items@.contains(x),
{
    items.into_iter().choose(rng)
}

/// Whether each item of a list is an item of another, each taken from a different
/// position.
pub open spec fn picks_distinct<T>(res: Seq<T>, items: Seq<T>) -> bool {
    exists|idx: Seq<int>| #[trigger] picks_at(res, items, idx)
}

/// Whether each item of a list is the item of another at the matching one of the given
/// positions, all different.
pub open spec fn picks_at<T>(res: Seq<T>, items: Seq<T>, idx: Seq<int>) -> bool {
    &&& idx.len() == res.len()
    &&& forall|i: int| 0 <= i < idx.len() ==> 0 <= #[trigger] idx[i] < items.len() && res[i] == items[idx[i]]
    &&& forall|i: int, j: int| 0 <= i < j < idx.len() ==> #[trigger] idx[i] != #[trigger] idx[j]
}

/// `IteratorRandom::choose_multiple`: `amount` of the items at random, each from a
/// different position, or all of them where there are fewer; their order is
/// unspecified.
#[verifier::external_body]
fn choose_several<T>(rng: &mut rand::rngs::ThreadRng, items: Vec<T>, amount: usize) -> (res: Vec<T>)
    ensures
        res@.len() == (if amount <= items@.len() {
            amount as int
        } else {
            items@.len() as int
        }),
        picks_distinct(res@, items@),
{
    items.into_iter().choose_multiple(rng, amount)
}

/// `SliceRandom::choose_weighted` with each choice's weight as its weight: a choice
/// drawn with probability weight over total, so never one of weight zero; `None`, for
/// the error, where there is no choice or all weights are zero. The weights are summed
/// in a `u8`, so their total must stay within it.
#[verifier::external_body]
fn choose_by_weight<'a, T>(rng: &mut rand::rngs::ThreadRng, choices: &'a [(T, u8)]) -> (res: Option<&'a (T, u8)>)
    requires
        weight_total(choices@) <= u8::MAX,
    ensures
        res is None <==> forall|i: int| 0 <= i < choices@.len() ==> (#[trigger] choices@[i]).1 == 0,
        res matches Some(c) ==> c.1 > 0 && exists|i: int| 0 <= i < choices@.len() && choices@[i] == *c,
{
    choices.choose_weighted(rng, |c| c.1).ok()
}

/// The binomial coefficient, by Pascal's rule.
pub open spec fn binomial(n: nat, k: nat) -> nat
    decreases n,
{
    if k == 0 {
        1
    } else if n == 0 {
        0
    } else {
        binomial((n - 1) as nat, (k - 1) as nat) + binomial((n - 1) as nat, k)
    }
}

/// Choosing at most `n` of `n` things can be done in at least one way.
pub proof fn lemma_binomial_positive(n: nat, k: nat)
    requires
        k <= n,
    ensures
        binomial(n, k) >= 1,
    decreases n,
{
    if k > 0 && n > 0 {
        lemma_binomial_positive((n - 1) as nat, (k - 1) as nat);
    }
}

/// The number of ways to pick `count` of `n` things, or all of them where there are
/// fewer.
pub open spec fn ways_to_pick(n: nat, count: nat) -> nat {
    binomial(n, if count <= n { count } else { n })
}

/// Whether picking `count` out of at most `n` things can always be counted in a `u64`.
pub open spec fn picking_fits(n: nat, count: nat) -> bool {
    forall|m: nat| m <= n ==> #[trigger] ways_to_pick(m, count) <= u64::MAX
}

/// Two of `m` things can be picked in `m * (m - 1) / 2` ways.
proof fn lemma_binomial_two(m: nat)
    ensures
        binomial(m, 1) == m,
        2 * binomial(m, 2) == m * (m - 1),
    decreases m,
{
    if m > 0 {
        lemma_binomial_two((m - 1) as nat);
        assert(binomial(m, 1) == binomial((m - 1) as nat, 0) + binomial((m - 1) as nat, 1));
        assert(binomial(m, 2) == binomial((m - 1) as nat, 1) + binomial((m - 1) as nat, 2));
        assert(2 * (m - 1) + (m - 1) * (m - 2) == m * (m - 1)) by (nonlinear_arith);
    }
}

/// Picking two out of at most `u32::MAX` things can always be counted in a `u64`.
pub proof fn lemma_picking_two_fits(n: nat)
    requires
        n <= u32::MAX,
    ensures
        picking_fits(n, 2),
{
    assert forall|m: nat| m <= n implies #[trigger] ways_to_pick(m, 2) <= u64::MAX by {
        lemma_binomial_two(m);
        if m >= 2 {
            assert(m * (m - 1) <= u32::MAX * u32::MAX) by (nonlinear_arith)
                requires
                    2 <= m <= u32::MAX,
            ;
        } else if m == 1 {
            assert(binomial(1, 1) == binomial(0, 0) + binomial(0, 1));
        }
    }
}

/// Choosing from fewer things, or fewer of them, never gives more ways: `binomial(i, j)`
/// is at most `binomial(n, k)` where `j <= k` and `k - j <= n - i`.
pub proof fn lemma_binomial_below(i: nat, j: nat, n: nat, k: nat)
    requires
        j <= k,
        i <= n,
        k - j <= n - i,
    ensures
        binomial(i, j) <= binomial(n, k),
    decreases n - i,
{
    if i < n {
        if j < k {
            assert(binomial(i + 1, j + 1) == binomial(i, j) + binomial(i, j + 1));
            lemma_binomial_below(i + 1, j + 1, n, k);
        } else {
            if j > 0 {
                assert(binomial(i + 1, j) == binomial(i, (j - 1) as nat) + binomial(i, j));
            }
            lemma_binomial_below(i + 1, j, n, k);
        }
    }
}

/// The number of ways to choose `k` of `n` things, by Pascal's rule row after row,
/// where it fits in a `u64`.
fn binomial_of(n: usize, k: usize) -> (res: u64)
    requires
        binomial(n as nat, k as nat) <= u64::MAX,
    ensures
        res == binomial(n as nat, k as nat),
{
    let mut row: Vec<u64> = Vec::new();
    row.push(1);
    let mut t: usize = 0;
    while t < k
        invariant
            0 <= t <= k,
            row@.len() == t + 1,
            forall|j: int| 0 <= j <= t ==> #[trigger] row@[j] == (if j == 0 { 1u64 } else { 0u64 }),
        decreases k - t,
    {
        row.push(0);
        t = t + 1;
    }
    let mut i: usize = 0;
    while i < n
        invariant
            0 <= i <= n,
            row@.len() == k + 1,
            binomial(n as nat, k as nat) <= u64::MAX,
            row@[0] == 1,
            forall|j: int| 0 <= j <= k && k - j <= n - i ==> #[trigger] row@[j] == binomial(i as nat, j as nat),
        decreases n - i,
    {
        let mut j: usize = k;
        while j >= 1
            invariant
                0 <= j <= k,
                i < n,
                row@.len() == k + 1,
                binomial(n as nat, k as nat) <= u64::MAX,
                row@[0] == 1,
                forall|t: int| j < t <= k && k - t <= n - (i + 1) ==> #[trigger] row@[t] == binomial((i + 1) as nat, t as nat),
                forall|t: int| 0 <= t <= j && k - t <= n - i ==> #[trigger] row@[t] == binomial(i as nat, t as nat),
            decreases j,
        {
            let a = row[j];
            let b = row[j - 1];
            let sum = if a <= u64::MAX - b { a + b } else { u64::MAX };
            proof {
                if k - j <= n - (i + 1) {
                    assert(binomial((i + 1) as nat, j as nat) == binomial(i as nat, (j - 1) as nat) + binomial(i as nat, j as nat));
                    lemma_binomial_below((i + 1) as nat, j as nat, n as nat, k as nat);
                    assert(a == binomial(i as nat, j as nat));
                    assert(b == binomial(i as nat, (j - 1) as nat));
                }
            }
            row.set(j, sum);
            j = j - 1;
        }
        proof {
            assert forall|t: int| 0 <= t <= k && k - t <= n - (i + 1) implies #[trigger] row@[t] == binomial((i + 1) as nat, t as nat) by {
                if t == 0 {
                    assert(binomial((i + 1) as nat, 0) == 1);
                }
            }
        }
        i = i + 1;
    }
    row[k]
}

/// A factor of a probability, as a numerator over a denominator.
pub open spec fn is_proper_factor(f: (u64, u64)) -> bool {
    1 <= f.0 <= f.1
}

/// The chance of an outcome: the generator that draws it, and the factors by which
/// each draw multiplied its probability, which starts at one.
#[derive(Clone, Debug)]
pub struct Probability {
    pub factors: Vec<(u64, u64)>,
    pub rng: rand::rngs::ThreadRng,
}

impl Probability {
    /// Whether every factor is a proper fraction, so that the probability is at most one.
    pub open spec fn well_formed(&self) -> bool {
        forall|i: int| 0 <= i < self.factors@.len() ==> is_proper_factor(#[trigger] self.factors@[i])
    }

    /// One of the choices at random; each was as likely, so the probability is divided by
    /// their number, unless there were none.
    pub fn choose_one<T>(&mut self, choices: Vec<T>) -> (res: Option<T>)
        ensures
            res is None <==> choices@.len() == 0,
            res matches Some(x) ==> choices@.contains(x),
            choices@.len() == 0 ==> final(self).factors@ == old(self).factors@,
            choices@.len() != 0 ==> final(self).factors@ == old(self).factors@.push(
                (1u64, choices@.len() as u64),
            ),
            choices@.len() != 0 ==> is_proper_factor(final(self).factors@.last()),
    {
        let resolved_count = choices.len();
        if resolved_count != 0 {
            self.factors.push((1, resolved_count as u64));
        }
        iter_choose(&mut self.rng, choices)
    }

    /// A number below `max` at random, each as likely; zero, with no draw, when `max` is
    /// zero.
    pub fn range(&mut self, max: usize) -> (res: usize)
        ensures
            max == 0 ==> res == 0 && final(self).factors@ == old(self).factors@,
            max > 0 ==> res < max && final(self).factors@ == old(self).factors@.push(
                (1u64, max as u64),
            ),
            max > 0 ==> is_proper_factor(final(self).factors@.last()),
    {
        if max == 0 {
            return 0;
        }
        self.factors.push((1, max as u64));
        gen_below(&mut self.rng, max)
    }

    /// One of the choices, drawn by weight; the probability is multiplied by the chosen
    /// weight over the total weight. `None`, with no draw, when there are no choices.
    pub fn choose_weighted<'a, T>(&mut self, choices: &'a [(T, u8)]) -> (res: Option<&'a T>)
        requires
            choices@.len() > 0 ==> weight_total(choices@) <= u8::MAX,
            choices@.len() > 0 ==> weight_total(choices@) > 0,
        ensures
            choices@.len() == 0 <==> res is None,
            choices@.len() == 0 ==> final(self).factors@ == old(self).factors@,
            choices@.len() > 0 ==> exists|i: int|
                0 <= i < choices@.len() && choices@[i].1 > 0 && res == Some(&choices@[i].0)
                    && final(self).factors@ == old(self).factors@.push(
                    (choices@[i].1 as u64, weight_total(choices@) as u64),
                ),
            choices@.len() > 0 ==> is_proper_factor(final(self).factors@.last()),
    {
        if choices.len() == 0 {
            None
        } else {
            let choice_sum = sum_weights(choices);
            proof {
                lemma_zero_total_means_zero_weights(choices@);
            }
            let selection = choose_by_weight(&mut self.rng, choices).unwrap();
            proof {
                let i = choose|i: int| 0 <= i < choices@.len() && choices@[i] == *selection;
                assert(choices@[i].1 > 0);
            }
            self.factors.push((selection.1 as u64, choice_sum as u64));
            Some(&selection.0)
        }
    }

    /// `count` of the choices at random, each from a different position; the probability
    /// is divided by the number of ways to pick that many.
    pub fn choose_multiple<T>(&mut self, choices: Vec<T>, count: usize) -> (res: Vec<T>)
        requires
            ways_to_pick(choices@.len() as nat, count as nat) <= u64::MAX,
        ensures
            res@.len() == (if count <= choices@.len() {
                count as int
            } else {
                choices@.len() as int
            }),
            picks_distinct(res@, choices@),
            final(self).factors@ == old(self).factors@.push(
                (1u64, binomial(choices@.len() as nat, res@.len() as nat) as u64),
            ),
    {
        let resolved_count = choices.len();
        let selection = choose_several(&mut self.rng, choices, count);
        let ways = binomial_of(resolved_count, selection.len());
        self.factors.push((1, ways));
        selection
    }

    /// Takes on the factors of another outcome, which this one follows, and returns that
    /// outcome's value.
    pub fn combine<T>(&mut self, rhs: (T, Self)) -> (res: T)
        ensures
            res == rhs.0,
            final(self).factors@ == old(self).factors@ + rhs.1.factors@,
    {
        let (value, other) = rhs;
        let mut other_factors = other.factors;
        self.factors.append(&mut other_factors);
        value
    }

    /// A certain outcome: no factors yet, and the generator of the current thread.
    pub fn new() -> (res: Probability)
        ensures
            res.factors@.len() == 0,
    {
        Probability { factors: Vec::new(), rng: thread_rng() }
    }
}

/// The sum of the weights of a list of choices.
pub open spec fn weight_total<T>(choices: Seq<(T, u8)>) -> int
    decreases choices.len(),
{
    if choices.len() == 0 {
        0
    } else {
        weight_total(choices.drop_last()) + choices.last().1
    }
}

/// The total is zero exactly when every weight is zero; each weight is at most the
/// total.
pub(crate) proof fn lemma_zero_total_means_zero_weights<T>(choices: Seq<(T, u8)>)
    ensures
        (forall|i: int| 0 <= i < choices.len() ==> (#[trigger] choices[i]).1 == 0) ==> weight_total(choices) == 0,
        weight_total(choices) == 0 ==> forall|i: int| 0 <= i < choices.len() ==> (#[trigger] choices[i]).1 == 0,
        forall|i: int| 0 <= i < choices.len() ==> (#[trigger] choices[i]).1 <= weight_total(choices),
        weight_total(choices) >= 0,
    decreases choices.len(),
{
    if choices.len() > 0 {
        lemma_zero_total_means_zero_weights(choices.drop_last());
        if forall|i: int| 0 <= i < choices.len() ==> (#[trigger] choices[i]).1 == 0 {
            assert forall|i: int| 0 <= i < choices.drop_last().len() implies (
            #[trigger] choices.drop_last()[i]).1 == 0 by {
                assert(choices.drop_last()[i] == choices[i]);
            }
            assert(choices[choices.len() - 1].1 == 0);
        }
        assert forall|i: int| 0 <= i < choices.len() implies (#[trigger] choices[i]).1 <= weight_total(choices) by {
            if i < choices.len() - 1 {
                assert(choices.drop_last()[i] == choices[i]);
            }
        }
        if weight_total(choices) == 0 {
            assert forall|i: int| 0 <= i < choices.len() implies (#[trigger] choices[i]).1 == 0 by {
                if i < choices.len() - 1 {
                    assert(choices.drop_last()[i] == choices[i]);
                }
            }
        }
    }
}

/// Adds up the weights of the choices, whose total fits in a `u8`.
fn sum_weights<T>(choices: &[(T, u8)]) -> (res: u8)
    requires
        weight_total(choices@) <= u8::MAX,
    ensures
        res == weight_total(choices@),
{
    let mut total: u8 = 0;
    let mut i: usize = 0;
    while i < choices.len()
        invariant
            0 <= i <= choices@.len(),
            weight_total(choices@) <= u8::MAX,
            total == weight_total(choices@.take(i as int)),
        decreases choices@.len() - i,
    {
        proof {
            assert(choices@.take(i + 1).drop_last() =~= choices@.take(i as int));
            lemma_prefix_total_bounded(choices@, i + 1);
        }
        total = total + choices[i].1;
        i = i + 1;
    }
    assert(choices@.take(choices@.len() as int) =~= choices@);
    total
}

/// The total of a prefix is at most the total of the whole list.
proof fn lemma_prefix_total_bounded<T>(choices: Seq<(T, u8)>, k: int)
    requires
        0 <= k <= choices.len(),
    ensures
        weight_total(choices.take(k)) <= weight_total(choices),
    decreases choices.len() - k,
{
    if k < choices.len() {
        lemma_prefix_total_bounded(choices, k + 1);
        assert(choices.take(k + 1).drop_last() =~= choices.take(k));
    } else {
        assert(choices.take(k) =~= choices);
    }
}

/// Every draw keeps the probability a product of proper fractions: it never exceeds one
/// and never grows. This is the case for each of `choose`, `range`, `choose_weighted`
/// and `choose_multiple`, whatever they draw.
pub proof fn lemma_draws_keep_factors_proper(
    before: Seq<(u64, u64)>,
    count: nat,
    weight: nat,
    total: nat,
    chosen: nat,
)
    requires
        forall|i: int| 0 <= i < before.len() ==> is_proper_factor(#[trigger] before[i]),
        1 <= count <= u64::MAX,
        1 <= weight <= total <= u8::MAX,
        chosen <= count,
        binomial(count, chosen) <= u64::MAX,
    ensures
        forall|i: int|
            0 <= i < before.len() + 1 ==> is_proper_factor(
                #[trigger] before.push((1u64, count as u64))[i],
            ),
        forall|i: int|
            0 <= i < before.len() + 1 ==> is_proper_factor(
                #[trigger] before.push((weight as u64, total as u64))[i],
            ),
        forall|i: int|
            0 <= i < before.len() + 1 ==> is_proper_factor(
                #[trigger] before.push((1u64, binomial(count, chosen) as u64))[i],
            ),
        binomial(count, chosen) >= 1,
{
    lemma_binomial_positive(count, chosen);
    assert forall|i: int| 0 <= i < before.len() + 1 implies is_proper_factor(
        #[trigger] before.push((1u64, binomial(count, chosen) as u64))[i],
    ) by {
        if i < before.len() {
            assert(before.push((1u64, binomial(count, chosen) as u64))[i] == before[i]);
        }
    }
    assert forall|i: int| 0 <= i < before.len() + 1 implies is_proper_factor(
        #[trigger] before.push((1u64, count as u64))[i],
    ) by {
        if i < before.len() {
            assert(before.push((1u64, count as u64))[i] == before[i]);
        }
    }
    assert forall|i: int| 0 <= i < before.len() + 1 implies is_proper_factor(
        #[trigger] before.push((weight as u64, total as u64))[i],
    ) by {
        if i < before.len() {
            assert(before.push((weight as u64, total as u64))[i] == before[i]);
        }
    }
}

} // verus!
