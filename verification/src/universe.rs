//! The universe: the application state and the reducer that changes it.

use vstd::prelude::*;

verus! {

/// The blueprint for the core of a universe: the state of an application and
/// the one operation that may change it.
pub trait AppUniverseCore: Sized {
    /// What can happen to the state, typically an enum with one variant per
    /// action.
    type Message;

    /// Whether the reducer, started in the state `self` and handed `message`,
    /// may leave the state `after`. An implementation that says nothing
    /// allows every state.
    open spec fn reduces_to(self, message: Self::Message, after: Self) -> bool {
        true
    }

    /// The reducer: reacts to `message` by changing the state in place.
    fn msg(&mut self, message: Self::Message)
        ensures
            old(self).reduces_to(message, *final(self)),
    ;
}

/// Owns the state of an application and routes every message through the
/// reducer of its core.
pub struct Universe<U: AppUniverseCore> {
    core: U,
}

impl<U: AppUniverseCore> View for Universe<U> {
    type V = U;

    /// The state that the universe holds.
    closed spec fn view(&self) -> U {
        self.core
    }
}

impl<U: AppUniverseCore> Universe<U> {
    /// The universe that holds `core`.
    pub closed spec fn holding(core: U) -> Self {
        Universe { core }
    }

    /// A universe is nothing but the state that it holds.
    pub proof fn lemma_holding_view(self)
        ensures
            Self::holding(self@) == self,
    {
    }

    /// The state of `holding(core)` is `core`.
    pub proof fn lemma_view_holding(core: U)
        ensures
            Self::holding(core)@ == core,
    {
    }

    /// Creates the universe around its initial state.
    pub fn new(core: U) -> (universe: Self)
        ensures
            universe@ == core,
    {
        Universe { core }
    }

    /// Runs the reducer on `message`.
    pub fn apply(&mut self, message: U::Message)
        ensures
            old(self)@.reduces_to(message, final(self)@),
    {
        self.core.msg(message);
    }

    /// Read access to the state.
    pub fn read(&self) -> (state: &U)
        ensures
            *state == self@,
    {
        &self.core
    }
}

} // verus!
