//! A value that remembers its last setting and reports changes.

use vstd::prelude::*;
use vstd::laws_eq::obeys_concrete_eq;
use vstd::std_specs::cmp::PartialEqSpec;

verus! {

/// One `update`: offered `offered` while holding `held`, the tracker
/// reported `changed` and holds `next` afterwards. It takes the offered
/// value when it reports a change and keeps what it held otherwise; for a
/// type whose `==` Verus knows, it reports a change exactly when the two
/// differ.
pub open spec fn update_step<T: PartialEq>(held: T, offered: T, changed: bool, next: T) -> bool {
    &&& changed ==> next == offered
    &&& !changed ==> next == held
    &&& T::obeys_eq_spec() ==> changed == !held.eq_spec(&offered)
}

/// Holds a value and tells, on each update, whether it changed.
pub struct Tracker<T: PartialEq> {
    value: T,
}

impl<T: PartialEq> Tracker<T> {
    /// The value held now.
    pub closed spec fn current(self) -> T {
        self.value
    }

    /// Starts tracking `value`.
    pub fn new(value: T) -> (t: Self)
        ensures
            t.current() == value,
    {
        Self { value }
    }

    /// Updates the tracked value. Returns `true` if the value changed.
    pub fn update(&mut self, new_value: T) -> (changed: bool)
        ensures
            update_step(old(self).current(), new_value, changed, final(self).current()),
            obeys_concrete_eq::<T>() ==> final(self).current() == new_value,
    {
        proof {
            reveal(obeys_concrete_eq);
        }
        if self.value != new_value {
            self.value = new_value;
            true
        } else {
            false
        }
    }

    /// The value held now.
    pub fn get(&self) -> (r: &T)
        ensures
            *r == self.current(),
    {
        &self.value
    }
}

/// After any run of updates, a tracker of a type whose `==` is equality
/// holds the last value offered (the starting value when none was),
/// whether or not each update reported a change. `held[0]` is the starting
/// value and `held[i + 1]` what the tracker holds after being offered
/// `offered[i]` and reporting `changed[i]`.
pub proof fn lemma_tracker_holds_last_offer<T: PartialEq>(
    offered: Seq<T>,
    changed: Seq<bool>,
    held: Seq<T>,
)
    requires
        obeys_concrete_eq::<T>(),
        changed.len() == offered.len(),
        held.len() == offered.len() + 1,
        forall|i: int|
            0 <= i < offered.len() ==> #[trigger] update_step(
                held[i],
                offered[i],
                changed[i],
                held[i + 1],
            ),
    ensures
        held.last() == (if offered.len() == 0 {
            held[0]
        } else {
            offered.last()
        }),
{
    reveal(obeys_concrete_eq);
    if offered.len() > 0 {
        let i = offered.len() - 1;
        assert(update_step(held[i], offered[i], changed[i], held[i + 1]));
    }
}

/// After any run of updates, a tracker of a type whose `==` Verus knows and
/// is reflexive holds a value `==` to the last one offered (the starting
/// value itself when none was), whether or not each update reported a
/// change. `held`, `offered` and `changed` are read as in
/// `lemma_tracker_holds_last_offer`.
pub proof fn lemma_tracker_holds_equal_to_last_offer<T: PartialEq>(
    offered: Seq<T>,
    changed: Seq<bool>,
    held: Seq<T>,
)
    requires
        T::obeys_eq_spec(),
        forall|x: T| #[trigger] x.eq_spec(&x),
        changed.len() == offered.len(),
        held.len() == offered.len() + 1,
        forall|i: int|
            0 <= i < offered.len() ==> #[trigger] update_step(
                held[i],
                offered[i],
                changed[i],
                held[i + 1],
            ),
    ensures
        offered.len() == 0 ==> held.last() == held[0],
        offered.len() > 0 ==> held.last().eq_spec(&offered.last()),
{
    if offered.len() > 0 {
        let i = offered.len() - 1;
        assert(update_step(held[i], offered[i], changed[i], held[i + 1]));
        assert(offered[i].eq_spec(&offered[i]));
    }
}

} // verus!
