//! The store: a universe and the registry of its subscribers under one
//! owner.

use crate::registry::Registry;
use crate::registry::Removal;
use crate::registry::Subscription;
use crate::registry::UniverseSubscription;
use crate::store_model::AppUniverseView;
use crate::universe::AppUniverseCore;
use crate::universe::Universe;
use vstd::prelude::*;

verus! {

/// A subscriber behind a pointer, so that callbacks of different types can
/// subscribe to one store.
pub type BoxedSubscriber<U> = Box<dyn FnMut(&Universe<U>)>;

/// Holds the state of an application and the subscriptions to it. The state
/// is read with `read` and changed with `msg`, which also calls every
/// subscriber; a subscriber is a callback that takes the universe after the
/// change.
pub struct AppUniverse<U: AppUniverseCore, F = BoxedSubscriber<U>> {
    universe: Universe<U>,
    subscriptions: Registry<Universe<U>, F>,
}

impl<U: AppUniverseCore, F> View for AppUniverse<U, F> {
    type V = AppUniverseView<U, F>;

    closed spec fn view(&self) -> AppUniverseView<U, F> {
        AppUniverseView { state: self.universe@, subscriptions: self.subscriptions@ }
    }
}

impl<U: AppUniverseCore, F: FnMut(&Universe<U>)> AppUniverse<U, F> {
    /// What holds of every store that was built through its operations.
    pub open spec fn wf(&self) -> bool {
        self@.wf()
    }

    /// Creates the store around the initial state, without subscribers and
    /// under a mark of its own.
    pub fn new(universe_core: U) -> (store: Self)
        ensures
            store@ == AppUniverseView::<U, F>::fresh(universe_core, store@.mark()),
            store.wf(),
    {
        AppUniverse { universe: Universe::new(universe_core), subscriptions: Registry::new() }
    }

    /// Sends a message: the reducer changes the state, and then every
    /// subscriber is called with the changed universe, oldest first.
    pub fn msg(&mut self, msg: U::Message)
        requires
            old(self).wf(),
        ensures
            old(self)@.msg(msg, final(self)@),
            forall|i: int|
                0 <= i < old(self)@.subscriptions.entries.len() ==> call_ensures(
                    #[trigger] old(self)@.subscriptions.entries[i].callback,
                    (&Universe::holding(final(self)@.state),),
                    (),
                ),
            final(self).wf(),
    {
        self.universe.apply(msg);
        self.subscriptions.notify(&self.universe);
        proof {
            self.universe.lemma_holding_view();
        }
    }

    /// Read access to the state.
    pub fn read(&self) -> (state: &U)
        ensures
            *state == self@.read(),
    {
        self.universe.read()
    }

    /// The live subscriptions, oldest first.
    pub fn read_subscriptions(&self) -> (records: &Vec<Subscription<F>>)
        ensures
            records@.map_values(|r: Subscription<F>| r@) == self@.subscriptions.entries,
    {
        self.subscriptions.records()
    }

    /// Whether an identity is left for one more subscription.
    pub fn can_subscribe(&self) -> (free: bool)
        ensures
            free == (self@.next_subscription().id < u64::MAX),
    {
        self.subscriptions.can_add()
    }

    /// Registers a subscriber: a callback that is called with the universe
    /// after every message from now on. The token that comes back is what
    /// `unsubscribe` takes; it carries the mark of this store.
    pub fn subscribe(&mut self, subscriber_fn: F) -> (subscription: UniverseSubscription)
        requires
            old(self).wf(),
            old(self)@.next_subscription().id < u64::MAX,
            forall|universe: &Universe<U>| call_requires(subscriber_fn, (universe,)),
        ensures
            final(self)@ == old(self)@.subscribe(subscriber_fn),
            subscription@ == old(self)@.next_subscription(),
            final(self).wf(),
    {
        self.subscriptions.add(subscriber_fn)
    }

    /// Cancels a subscription, so that its callback is no longer called. A
    /// token that this store did not issue, or whose subscription is not
    /// live any more, changes nothing and is answered with an error.
    pub fn unsubscribe(&mut self, subscription: UniverseSubscription) -> (result: Result<
        (),
        &'static str,
    >)
        requires
            old(self).wf(),
        ensures
            final(self)@ == old(self)@.unsubscribe(subscription@),
            result is Ok <==> old(self)@.is_subscribed(subscription@),
            result matches Err(reason) ==> reason@ == "Subscription not found"@,
            result is Err ==> final(self)@ == old(self)@,
            final(self).wf(),
    {
        match self.subscriptions.remove(subscription) {
            Removal::Removed => Ok(()),
            Removal::NotFound => Err("Subscription not found"),
        }
    }
}

} // verus!
