use vstd::prelude::*;

use super::common::{str_eq, Class, Effect, Rarity};

verus! {

/// The definition of a potion.
#[derive(PartialEq, Eq, Hash, Debug)]
pub struct BasePotion {
    pub name: String,
    pub class: Class,
    pub rarity: Rarity,
    pub on_drink: Vec<Effect>,
    pub targeted: bool,
}

/// Whether a catalog holds a potion of the given name.
pub open spec fn has_potion_named(potions: Seq<&'static BasePotion>, name: Seq<char>) -> bool {
    exists|i: int| 0 <= i < potions.len() && (#[trigger] potions[i]).name@ == name
}

/// The potion of the given name in a catalog of potions: the first one of that name.
pub fn by_name(potions: &[&'static BasePotion], name: &str) -> (res: &'static BasePotion)
    requires
        has_potion_named(potions@, name@),
    ensures
        res.name@ == name@,
        exists|i: int|
            0 <= i < potions@.len() && potions@[i] == res && forall|j: int|
                0 <= j < i ==> (#[trigger] potions@[j]).name@ != name@,
{
    let mut i: usize = 0;
    while i < potions.len()
        invariant
            0 <= i <= potions@.len(),
            has_potion_named(potions@, name@),
            forall|j: int| 0 <= j < i ==> (#[trigger] potions@[j]).name@ != name@,
        decreases potions@.len() - i,
    {
        if str_eq(potions[i].name.as_str(), name) {
            return potions[i];
        }
        i = i + 1;
    }
    proof {
        let k = choose|k: int| 0 <= k < potions@.len() && (#[trigger] potions@[k]).name@ == name@;
        assert(potions@[k].name@ != name@);
    }
    potions[0]
}

} // verus!
