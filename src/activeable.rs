use vstd::prelude::*;
use crate::saveable::SaveableData;

verus! {

/// A node with a latent boolean activity.
pub trait Activeable {
    /// The live activity.
    spec fn active_spec(&self) -> bool;

    fn is_active(&self) -> (r: bool)
        ensures
            r == self.active_spec(),
    ;

    /// Sets the live activity to `b`.
    fn set_activity(&mut self, b: bool)
        ensures
            final(self).active_spec() == b,
    ;

    /// Flips the live activity.
    fn switch_activity(&mut self)
        ensures
            final(self).active_spec() == !old(self).active_spec(),
    {
        let b = self.is_inactive();
        self.set_activity(b);
    }

    fn is_inactive(&self) -> (r: bool)
        ensures
            r == !self.active_spec(),
    {
        !self.is_active()
    }
}

impl SaveableData<bool> {
    /// The checkpoint after `save`: the live state is committed.
    pub open spec fn committed(self) -> Self {
        SaveableData { current: self.current, saved: self.current }
    }

    /// The checkpoint after `set_activity(b)`: the previous live state is
    /// committed, then the live state becomes `b`.
    pub open spec fn with_activity(self, b: bool) -> Self {
        SaveableData { current: b, saved: self.current }
    }

    /// The checkpoint after `restore`: the live state rolls back to the commit.
    pub open spec fn restored(self) -> Self {
        SaveableData { current: self.saved, saved: self.saved }
    }
}

impl Activeable for SaveableData<bool> {
    open spec fn active_spec(&self) -> bool {
        self.current
    }

    fn is_active(&self) -> (r: bool) {
        self.current
    }

    fn set_activity(&mut self, b: bool)
        ensures
            *final(self) == old(self).with_activity(b),
    {
        self.saved = self.current;
        self.current = b;
    }
}

/// A proposal that is rolled back leaves the activity as it was: after
/// `save`, `set_activity(x)` and `restore`, the live activity is the one
/// held before `set_activity(x)`, whichever `x` was proposed.
pub proof fn lemma_checkpoint_round_trip(d: SaveableData<bool>, x: bool)
    ensures
        d.committed().with_activity(x).restored().current == d.committed().current,
        d.committed().with_activity(x).restored() == d.committed(),
        d.with_activity(x).restored().current == d.current,
{
}

} // verus!
