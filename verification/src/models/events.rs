use vstd::prelude::*;

use super::common::{str_eq, Condition, Effect};

verus! {

/// The definition of an event.
#[derive(PartialEq, Eq, Hash, Debug)]
pub struct BaseEvent {
    pub name: String,
    pub choices: Vec<BaseEventChoice>,
    pub shrine: bool,
    pub variants: Vec<String>,
    pub condition: Condition,
}

/// A choice that an event offers.
#[derive(PartialEq, Eq, Hash, Debug)]
pub struct BaseEventChoice {
    pub name: String,
    pub effects: Vec<Effect>,
    pub condition: Condition,
    pub initial: bool,
}

/// Whether a catalog holds an event of the given name.
pub open spec fn has_event_named(events: Seq<&'static BaseEvent>, name: Seq<char>) -> bool {
    exists|i: int| 0 <= i < events.len() && (#[trigger] events[i]).name@ == name
}

/// The event of the given name in a catalog of events: the first one of that name.
pub fn by_name(events: &[&'static BaseEvent], name: &str) -> (res: &'static BaseEvent)
    requires
        has_event_named(events@, name@),
    ensures
        res.name@ == name@,
        exists|i: int|
            0 <= i < events@.len() && events@[i] == res && forall|j: int|
                0 <= j < i ==> (#[trigger] events@[j]).name@ != name@,
{
    let mut i: usize = 0;
    while i < events.len()
        invariant
            0 <= i <= events@.len(),
            has_event_named(events@, name@),
            forall|j: int| 0 <= j < i ==> (#[trigger] events@[j]).name@ != name@,
        decreases events@.len() - i,
    {
        if str_eq(events[i].name.as_str(), name) {
            return events[i];
        }
        i = i + 1;
    }
    proof {
        let k = choose|k: int| 0 <= k < events@.len() && (#[trigger] events@[k]).name@ == name@;
        assert(events@[k].name@ != name@);
    }
    events[0]
}

} // verus!
