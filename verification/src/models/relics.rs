use vstd::prelude::*;

use super::common::{str_eq, Class, Effect, Rarity, When};

verus! {

/// The definition of a relic.
#[derive(PartialEq, Eq, Hash, Debug)]
pub struct BaseRelic {
    pub name: String,
    pub rarity: Rarity,
    pub activation: Activation,
    pub effect: Vec<Effect>,
    pub disable_at: When,
    pub class: Class,
    pub energy_relic: bool,
    pub replaces_starter: bool,
    pub starting_x: i16,
    pub max_floor: u8,
    pub shop_relic: bool,
}

/// When a relic acts.
#[derive(PartialEq, Eq, Hash, Clone, Debug)]
pub enum Activation {
    Immediate,
    When(When),
    Counter { increment: When, reset: When, auto_reset: bool, target: u16 },
    Uses { use_when: When, uses: u16 },
    WhenEnabled { activated_at: When, enabled_at: When, disabled_at: When },
    Custom,
}

impl Activation {
    /// The default activation is a custom one.
    pub fn default() -> (res: Self)
        ensures
            res is Custom,
    {
        Activation::Custom
    }
}

/// Whether a catalog holds a relic of the given name.
pub open spec fn has_relic_named(relics: Seq<&'static BaseRelic>, name: Seq<char>) -> bool {
    exists|i: int| 0 <= i < relics.len() && (#[trigger] relics[i]).name@ == name
}

/// The relic of the given name in a catalog of relics: the first one of that name.
pub fn by_name(relics: &[&'static BaseRelic], name: &str) -> (res: &'static BaseRelic)
    requires
        has_relic_named(relics@, name@),
    ensures
        res.name@ == name@,
        exists|i: int|
            0 <= i < relics@.len() && relics@[i] == res && forall|j: int|
                0 <= j < i ==> (#[trigger] relics@[j]).name@ != name@,
{
    let mut i: usize = 0;
    while i < relics.len()
        invariant
            0 <= i <= relics@.len(),
            has_relic_named(relics@, name@),
            forall|j: int| 0 <= j < i ==> (#[trigger] relics@[j]).name@ != name@,
        decreases relics@.len() - i,
    {
        if str_eq(relics[i].name.as_str(), name) {
            return relics[i];
        }
        i = i + 1;
    }
    proof {
        let k = choose|k: int| 0 <= k < relics@.len() && (#[trigger] relics@[k]).name@ == name@;
        assert(relics@[k].name@ != name@);
    }
    relics[0]
}

} // verus!
