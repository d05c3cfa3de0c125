//! State that timers act on: a state holds one number under a property name,
//! and a list of deltas moves the number by the deltas that name it.

use vstd::prelude::*;

verus! {

/// A change of `delta` to the number that a state holds under `property`.
pub struct StateDelta {
    pub property: String,
    pub delta: i32,
}

/// `start` moved by those of `deltas` that name `property`, in order.
pub open spec fn apply_deltas(start: int, property: Seq<char>, deltas: Seq<StateDelta>) -> int
    decreases deltas.len(),
{
    if deltas.len() == 0 {
        start
    } else {
        let before = apply_deltas(start, property, deltas.drop_last());
        if deltas.last().property@ == property {
            before + deltas.last().delta
        } else {
            before
        }
    }
}

/// Whether `start` stays a 32-bit number all the way through `deltas`.
pub open spec fn deltas_fit(start: int, property: Seq<char>, deltas: Seq<StateDelta>) -> bool {
    forall|k: int|
        0 <= k <= deltas.len() ==> i32::MIN <= #[trigger] apply_deltas(
            start,
            property,
            deltas.take(k),
        ) <= i32::MAX
}

/// Something that a list of deltas can be applied to.
pub trait State {
    /// Whether `state_deltas` can be applied to this state.
    spec fn can_update(&self, state_deltas: Seq<StateDelta>) -> bool;

    /// Whether `after` is this state with `state_deltas` applied.
    spec fn updated(&self, state_deltas: Seq<StateDelta>, after: &Self) -> bool;

    /// Applies `state_deltas`, in order.
    fn update_state(&mut self, state_deltas: &Vec<StateDelta>)
        requires
            old(self).can_update(state_deltas@),
        ensures
            old(self).updated(state_deltas@, final(self)),
    ;

    /// Tells whether `state_deltas` can be applied to this state.
    fn accepts(&self, state_deltas: &Vec<StateDelta>) -> (accepted: bool)
        ensures
            accepted == self.can_update(state_deltas@),
    ;
}

/// A character; deltas to "hitpoints" act on it.
pub struct Character {
    pub hitpoints: i32,
    pub name: String,
}

/// A monster; deltas to "anger" act on it.
pub struct Monster {
    pub anger: i32,
    pub name: String,
}

/// Adds to `value` those of `state_deltas` that name `property`.
fn apply(value: i32, property: &str, state_deltas: &Vec<StateDelta>) -> (result: i32)
    requires
        deltas_fit(value as int, property@, state_deltas@),
    ensures
        result == apply_deltas(value as int, property@, state_deltas@),
{
    let name = property.to_owned();
    let mut result = value;
    let mut i: usize = 0;
    assert(state_deltas@.take(0) =~= Seq::<StateDelta>::empty());
    while i < state_deltas.len()
        invariant
            i <= state_deltas@.len(),
            name@ == property@,
            deltas_fit(value as int, property@, state_deltas@),
            result == apply_deltas(value as int, property@, state_deltas@.take(i as int)),
        decreases state_deltas@.len() - i,
    {
        let state_delta = &state_deltas[i];
        proof {
            assert(state_deltas@.take(i + 1).drop_last() =~= state_deltas@.take(i as int));
            assert(i32::MIN <= apply_deltas(
                value as int,
                property@,
                state_deltas@.take(i + 1),
            ) <= i32::MAX);
        }
        if state_delta.property == name {
            result = result + state_delta.delta;
        }
        i += 1;
    }
    assert(state_deltas@.take(state_deltas@.len() as int) =~= state_deltas@);
    result
}

/// Tells whether `value` stays a 32-bit number all the way through
/// `state_deltas`.
fn fits(value: i32, property: &str, state_deltas: &Vec<StateDelta>) -> (result: bool)
    ensures
        result == deltas_fit(value as int, property@, state_deltas@),
{
    let name = property.to_owned();
    let mut reached: i64 = value as i64;
    let mut i: usize = 0;
    assert(state_deltas@.take(0) =~= Seq::<StateDelta>::empty());
    while i < state_deltas.len()
        invariant
            i <= state_deltas@.len(),
            name@ == property@,
            reached == apply_deltas(value as int, property@, state_deltas@.take(i as int)),
            forall|k: int|
                0 <= k <= i ==> i32::MIN <= #[trigger] apply_deltas(
                    value as int,
                    property@,
                    state_deltas@.take(k),
                ) <= i32::MAX,
        decreases state_deltas@.len() - i,
    {
        let state_delta = &state_deltas[i];
        proof {
            assert(state_deltas@.take(i + 1).drop_last() =~= state_deltas@.take(i as int));
        }
        if state_delta.property == name {
            reached = reached + state_delta.delta as i64;
        }
        assert(reached == apply_deltas(value as int, property@, state_deltas@.take(i + 1)));
        if reached < i32::MIN as i64 || reached > i32::MAX as i64 {
            return false;
        }
        i += 1;
    }
    true
}

impl State for Character {
    open spec fn can_update(&self, state_deltas: Seq<StateDelta>) -> bool {
        deltas_fit(self.hitpoints as int, "hitpoints"@, state_deltas)
    }

    open spec fn updated(&self, state_deltas: Seq<StateDelta>, after: &Self) -> bool {
        &&& after.hitpoints == apply_deltas(self.hitpoints as int, "hitpoints"@, state_deltas)
        &&& after.name == self.name
    }

    fn update_state(&mut self, state_deltas: &Vec<StateDelta>) {
        self.hitpoints = apply(self.hitpoints, "hitpoints", state_deltas);
    }

    fn accepts(&self, state_deltas: &Vec<StateDelta>) -> bool {
        fits(self.hitpoints, "hitpoints", state_deltas)
    }
}

impl State for Monster {
    open spec fn can_update(&self, state_deltas: Seq<StateDelta>) -> bool {
        deltas_fit(self.anger as int, "anger"@, state_deltas)
    }

    open spec fn updated(&self, state_deltas: Seq<StateDelta>, after: &Self) -> bool {
        &&& after.anger == apply_deltas(self.anger as int, "anger"@, state_deltas)
        &&& after.name == self.name
    }

    fn update_state(&mut self, state_deltas: &Vec<StateDelta>) {
        self.anger = apply(self.anger, "anger", state_deltas);
    }

    fn accepts(&self, state_deltas: &Vec<StateDelta>) -> bool {
        fits(self.anger, "anger", state_deltas)
    }
}

} // verus!
