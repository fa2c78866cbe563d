//! Engines as functions of what they are told.
//!
//! An engine has no state but its setpoint and its two stages, and nothing
//! but `set_value` and `update` changes them. What it answers is therefore
//! decided by where it started and by the commands it was given.

use vstd::prelude::*;
use crate::domain::{Domain, State};

verus! {

/// One call on an engine.
pub enum Command {
    /// `set_value` with the given setpoint.
    SetValue(int),
    /// `update`.
    Update,
}

impl Domain {
    /// The state that one command leaves.
    pub open spec fn apply(self, s: State, c: Command) -> State {
        match c {
            Command::SetValue(v) => s.with_setpoint(v),
            Command::Update => self.step(s),
        }
    }

    /// The state that a sequence of commands leaves.
    pub open spec fn replay(self, s: State, cs: Seq<Command>) -> State
        decreases cs.len(),
    {
        if cs.len() == 0 {
            s
        } else {
            self.apply(self.replay(s, cs.drop_last()), cs.last())
        }
    }

    /// The bits that the updates among a sequence of commands return.
    pub open spec fn outputs(self, s: State, cs: Seq<Command>) -> Seq<bool>
        decreases cs.len(),
    {
        if cs.len() == 0 {
            Seq::empty()
        } else {
            let before = self.outputs(s, cs.drop_last());
            match cs.last() {
                Command::SetValue(_) => before,
                Command::Update => before.push(self.replay(s, cs).output()),
            }
        }
    }
}

/// Determinism: two engines of one domain that start in the same state and
/// are given the same commands, one by one, return the same bits and end in
/// the same state.
pub proof fn lemma_deterministic(
    d: Domain,
    s1: State,
    s2: State,
    cs1: Seq<Command>,
    cs2: Seq<Command>,
)
    requires
        s1 == s2,
        cs1.len() == cs2.len(),
        forall|i: int| 0 <= i < cs1.len() ==> cs1[i] == cs2[i],
    ensures
        d.outputs(s1, cs1) == d.outputs(s2, cs2),
        d.replay(s1, cs1) == d.replay(s2, cs2),
{
    assert(cs1 =~= cs2);
}

/// An engine carries nothing over but its state: what it returns after a
/// first batch of commands is what any engine in that state would return.
pub proof fn lemma_replay_continues(d: Domain, s: State, cs1: Seq<Command>, cs2: Seq<Command>)
    ensures
        d.replay(s, cs1 + cs2) == d.replay(d.replay(s, cs1), cs2),
        d.outputs(s, cs1 + cs2) == d.outputs(s, cs1) + d.outputs(d.replay(s, cs1), cs2),
    decreases cs2.len(),
{
    if cs2.len() == 0 {
        assert(cs1 + cs2 =~= cs1);
        assert(d.outputs(s, cs1) + Seq::<bool>::empty() =~= d.outputs(s, cs1));
    } else {
        lemma_replay_continues(d, s, cs1, cs2.drop_last());
        assert((cs1 + cs2).drop_last() =~= cs1 + cs2.drop_last());
        assert((cs1 + cs2).last() == cs2.last());
        let mid = d.replay(s, cs1);
        assert(d.outputs(s, cs1) + d.outputs(mid, cs2.drop_last()).push(d.replay(mid, cs2).output())
            =~= (d.outputs(s, cs1) + d.outputs(mid, cs2.drop_last())).push(
            d.replay(mid, cs2).output(),
        ));
    }
}

} // verus!
