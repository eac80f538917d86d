//! The store as the contracts see it: the state of the application and the
//! registry of its subscribers.

use crate::registry_model::Delivery;
use crate::registry_model::RegistryView;
use crate::registry_model::TokenView;
use crate::universe::AppUniverseCore;
use crate::universe::Universe;
use vstd::prelude::*;

verus! {

/// The mathematical model of a store over the core `U` with subscribers of
/// type `F`.
pub struct AppUniverseView<U: AppUniverseCore, F> {
    /// The state of the application.
    pub state: U,
    /// The subscribers, and the calls that were made to them.
    pub subscriptions: RegistryView<Universe<U>, F>,
}

impl<U: AppUniverseCore, F> AppUniverseView<U, F> {
    /// The store as it is created around `core` under the mark `mark`:
    /// nobody subscribed, nobody was called.
    pub open spec fn fresh(core: U, mark: nat) -> Self {
        AppUniverseView { state: core, subscriptions: RegistryView::empty(mark) }
    }

    /// The mark of this store, which every token that it issues carries.
    pub open spec fn mark(self) -> nat {
        self.subscriptions.mark
    }

    /// What `read` shows.
    pub open spec fn read(self) -> U {
        self.state
    }

    /// The store after its state became `state` and every subscriber was
    /// called with the universe that holds it.
    pub open spec fn announce(self, state: U) -> Self {
        AppUniverseView {
            state,
            subscriptions: self.subscriptions.notify(Universe::holding(state)),
        }
    }

    /// Whether sending `message` may take the store to `after`: the reducer
    /// has taken the state to that of `after`, and then every subscriber was
    /// called with it.
    pub open spec fn msg(self, message: U::Message, after: Self) -> bool {
        &&& self.state.reduces_to(message, after.state)
        &&& after == self.announce(after.state)
    }

    /// The token that the next `subscribe` hands out.
    pub open spec fn next_subscription(self) -> TokenView {
        self.subscriptions.next_token()
    }

    /// The store after `callback` subscribed.
    pub open spec fn subscribe(self, callback: F) -> Self {
        AppUniverseView { state: self.state, subscriptions: self.subscriptions.add(callback) }
    }

    /// The store after each of `callbacks` subscribed, the first one first.
    pub open spec fn subscribe_all(self, callbacks: Seq<F>) -> Self
        decreases callbacks.len(),
    {
        if callbacks.len() == 0 {
            self
        } else {
            self.subscribe_all(callbacks.drop_last()).subscribe(callbacks.last())
        }
    }

    /// Whether `token` stands for a live subscription of this store: this
    /// store issued it, and the subscription was not cancelled since.
    pub open spec fn is_subscribed(self, token: TokenView) -> bool {
        self.subscriptions.accepts(token)
    }

    /// The store after `token` was handed in to cancel a subscription: a
    /// token of this store cancels the subscription that it names, a token of
    /// another store changes nothing.
    pub open spec fn unsubscribe(self, token: TokenView) -> Self {
        AppUniverseView { state: self.state, subscriptions: self.subscriptions.cancel(token) }
    }

    /// The identities of the live subscriptions, oldest first.
    pub open spec fn subscribers(self) -> Seq<nat> {
        self.subscriptions.ids()
    }

    /// Every call of a subscriber made so far, oldest first.
    pub open spec fn deliveries(self) -> Seq<Delivery<Universe<U>>> {
        self.subscriptions.deliveries
    }

    /// The call of the subscription `id` with the state `state`.
    pub open spec fn delivery(id: nat, state: U) -> Delivery<Universe<U>> {
        Delivery { id, argument: Universe::holding(state) }
    }
}

impl<U: AppUniverseCore, F: FnMut(&Universe<U>)> AppUniverseView<U, F> {
    /// What holds of every store that was built through its operations.
    pub open spec fn wf(self) -> bool {
        self.subscriptions.wf()
    }
}

} // verus!
