use vstd::prelude::*;

verus! {

/// A value with a live state and a committed checkpoint of it.
///
/// `save` commits the live state; `restore` rolls the live state back to the
/// last commit.
pub trait Saveable {
    type Output;

    /// The live state.
    spec fn current_spec(&self) -> Self::Output;

    /// The last committed state.
    spec fn saved_spec(&self) -> Self::Output;

    /// Commits the live state: the checkpoint becomes the live state.
    fn save(&mut self)
        ensures
            final(self).saved_spec() == old(self).current_spec(),
            final(self).current_spec() == old(self).current_spec(),
    ;

    /// Rolls back: the live state becomes the checkpoint.
    fn restore(&mut self)
        ensures
            final(self).current_spec() == old(self).saved_spec(),
            final(self).saved_spec() == old(self).saved_spec(),
    ;

    fn current(&self) -> (r: Self::Output)
        ensures
            r == self.current_spec(),
    ;

    fn saved(&self) -> (r: Self::Output)
        ensures
            r == self.saved_spec(),
    ;
}

/// A checkpointed value: `current` is the live state, `saved` the last commit.
#[derive(Clone, Copy, Debug, Default)]
pub struct SaveableData<T> {
    pub current: T,
    pub saved: T,
}

impl<T: Copy> SaveableData<T> {
    pub fn new(current: T, saved: T) -> (r: Self)
        ensures
            r.current == current,
            r.saved == saved,
    {
        SaveableData { current, saved }
    }
}

impl<T: Copy> Saveable for SaveableData<T> {
    type Output = T;

    open spec fn current_spec(&self) -> T {
        self.current
    }

    open spec fn saved_spec(&self) -> T {
        self.saved
    }

    fn save(&mut self)
        ensures
            *final(self) == (SaveableData { current: old(self).current, saved: old(self).current }),
    {
        self.saved = self.current;
    }

    fn restore(&mut self)
        ensures
            *final(self) == (SaveableData { current: old(self).saved, saved: old(self).saved }),
    {
        self.current = self.saved;
    }

    fn current(&self) -> (r: T) {
        self.current
    }

    fn saved(&self) -> (r: T) {
        self.saved
    }
}

} // verus!
