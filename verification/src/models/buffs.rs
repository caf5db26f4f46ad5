use vstd::prelude::*;

use super::common::{str_eq, Effect, When, WhenEffect};

verus! {

/// The definition of a buff or debuff.
#[derive(PartialEq, Eq, Hash, Debug)]
pub struct BaseBuff {
    pub name: String,
    pub repeats: bool,
    pub singular: bool,
    pub zeroable: bool,
    pub debuff: bool,
    pub on_add: Vec<Effect>,
    pub reduce_at: When,
    pub expire_at: When,
    pub effects: Vec<WhenEffect>,
}

/// Whether a catalog holds a buff of the given name.
pub open spec fn has_buff_named(buffs: Seq<&'static BaseBuff>, name: Seq<char>) -> bool {
    exists|i: int| 0 <= i < buffs.len() && (#[trigger] buffs[i]).name@ == name
}

/// The buff of the given name in a catalog of buffs: the first one of that name.
pub fn by_name(buffs: &[&'static BaseBuff], name: &str) -> (res: &'static BaseBuff)
    requires
        has_buff_named(buffs@, name@),
    ensures
        res.name@ == name@,
        exists|i: int|
            0 <= i < buffs@.len() && buffs@[i] == res && forall|j: int|
                0 <= j < i ==> (#[trigger] buffs@[j]).name@ != name@,
{
    let mut i: usize = 0;
    while i < buffs.len()
        invariant
            0 <= i <= buffs@.len(),
            has_buff_named(buffs@, name@),
            forall|j: int| 0 <= j < i ==> (#[trigger] buffs@[j]).name@ != name@,
        decreases buffs@.len() - i,
    {
        if str_eq(buffs[i].name.as_str(), name) {
            return buffs[i];
        }
        i = i + 1;
    }
    proof {
        let k = choose|k: int| 0 <= k < buffs@.len() && (#[trigger] buffs@[k]).name@ == name@;
        assert(buffs@[k].name@ != name@);
    }
    buffs[0]
}

} // verus!
