//! What holds of every store, whatever was sent to it and whoever
//! subscribed.

use crate::registry_model::Entry;
use crate::registry_model::RegistryView;
use crate::registry_model::TokenView;
use crate::store_model::AppUniverseView;
use crate::universe::AppUniverseCore;
use crate::universe::Universe;
use vstd::prelude::*;

verus! {

/// A message is seen by every later read: after `msg` the store shows a state
/// that the reducer left, and neither subscribing nor cancelling a
/// subscription changes what it shows.
pub proof fn law_mutation_visibility<U: AppUniverseCore, F: FnMut(&Universe<U>)>(
    before: AppUniverseView<U, F>,
    message: U::Message,
    after: AppUniverseView<U, F>,
    callback: F,
    token: TokenView,
)
    requires
        before.wf(),
        before.msg(message, after),
    ensures
        before.state.reduces_to(message, after.read()),
        after.subscribe(callback).read() == after.read(),
        after.unsubscribe(token).read() == after.read(),
{
}

/// A message reaches every subscriber exactly once: `msg` adds one call for
/// each live subscription, each with the state that `read` then shows, no
/// subscription twice, and leaves the subscriptions as they were.
pub proof fn law_notification_completeness<U: AppUniverseCore, F: FnMut(&Universe<U>)>(
    before: AppUniverseView<U, F>,
    message: U::Message,
    after: AppUniverseView<U, F>,
)
    requires
        before.wf(),
        before.msg(message, after),
    ensures
        after.wf(),
        after.subscriptions.entries == before.subscriptions.entries,
        after.mark() == before.mark(),
        after.deliveries().len() == before.deliveries().len() + before.subscribers().len(),
        after.deliveries().take(before.deliveries().len() as int) == before.deliveries(),
        forall|i: int|
            0 <= i < before.subscribers().len() ==> {
                &&& (#[trigger] after.deliveries()[before.deliveries().len() + i]).id
                    == before.subscribers()[i]
                &&& after.deliveries()[before.deliveries().len() + i].argument@ == after.read()
            },
        forall|i: int, j: int|
            0 <= i < j < before.subscribers().len() ==> before.subscribers()[i]
                != before.subscribers()[j],
{
    let made = before.subscriptions.announced(Universe::holding(after.state));
    before.subscriptions.lemma_notify(Universe::holding(after.state));
    assert(after.deliveries().take(before.deliveries().len() as int) =~= before.deliveries());
    Universe::lemma_view_holding(after.state);
    assert forall|i: int| 0 <= i < before.subscribers().len() implies {
        &&& (#[trigger] after.deliveries()[before.deliveries().len() + i]).id
            == before.subscribers()[i]
        &&& after.deliveries()[before.deliveries().len() + i].argument@ == after.read()
    } by {
        assert(after.deliveries()[before.deliveries().len() + i] == made[i]);
    }
}

/// Subscribers are called in the order in which they subscribed: after
/// `callbacks` subscribed one after the other, each message calls whoever was
/// there before, and then `callbacks` from the first to the last.
pub proof fn law_registration_order<U: AppUniverseCore, F: FnMut(&Universe<U>)>(
    start: AppUniverseView<U, F>,
    callbacks: Seq<F>,
    message: U::Message,
    after: AppUniverseView<U, F>,
)
    requires
        start.wf(),
        forall|i: int, universe: &Universe<U>|
            0 <= i < callbacks.len() ==> #[trigger] call_requires(callbacks[i], (universe,)),
        start.subscribe_all(callbacks).msg(message, after),
    ensures
        start.subscribe_all(callbacks).wf(),
        start.subscribe_all(callbacks).subscriptions.entries == start.subscriptions.entries
            + Seq::new(
            callbacks.len(),
            |i: int|
                Entry { id: (start.next_subscription().id + i) as nat, callback: callbacks[i] },
        ),
        after.subscriptions.entries == start.subscribe_all(callbacks).subscriptions.entries,
        after.mark() == start.mark(),
        after.deliveries() == start.deliveries() + start.subscriptions.announced(
            Universe::holding(after.read()),
        ) + Seq::new(
            callbacks.len(),
            |i: int|
                AppUniverseView::<U, F>::delivery(
                    (start.next_subscription().id + i) as nat,
                    after.read(),
                ),
        ),
{
    lemma_subscribe_all(start, callbacks);
    let grown = start.subscribe_all(callbacks);
    start.subscriptions.lemma_add_all(callbacks);
    start.subscriptions.lemma_add_all_wf(callbacks);
    let shown = Universe::holding(after.read());
    let added = Seq::new(
        callbacks.len(),
        |i: int|
            AppUniverseView::<U, F>::delivery(
                (start.next_subscription().id + i) as nat,
                after.read(),
            ),
    );
    assert(grown.subscriptions.announced(shown) =~= start.subscriptions.announced(shown) + added);
    assert(after.deliveries() =~= start.deliveries() + start.subscriptions.announced(shown)
        + added);
}

/// Subscribing one after the other registers one after the other.
pub proof fn lemma_subscribe_all<U: AppUniverseCore, F>(
    start: AppUniverseView<U, F>,
    callbacks: Seq<F>,
)
    ensures
        start.subscribe_all(callbacks).state == start.state,
        start.subscribe_all(callbacks).subscriptions == start.subscriptions.add_all(callbacks),
    decreases callbacks.len(),
{
    if callbacks.len() > 0 {
        lemma_subscribe_all(start, callbacks.drop_last());
    }
}

/// Cancelling takes out the one subscription it names: of two subscribers
/// that subscribed one after the other, cancelling the first leaves the
/// second, under its identity and with its callback, behind whoever was there
/// before; and the next message calls those and the second, not the first.
pub proof fn law_precise_unsubscribe<U: AppUniverseCore, F: FnMut(&Universe<U>)>(
    start: AppUniverseView<U, F>,
    first: F,
    second: F,
    message: U::Message,
    after: AppUniverseView<U, F>,
)
    requires
        start.wf(),
        forall|universe: &Universe<U>| call_requires(first, (universe,)),
        forall|universe: &Universe<U>| call_requires(second, (universe,)),
        start.subscribe(first).subscribe(second).unsubscribe(start.next_subscription()).msg(
            message,
            after,
        ),
    ensures
        start.subscribe(first).next_subscription() == (TokenView {
            id: start.next_subscription().id + 1,
            issuer: start.mark(),
        }),
        start.subscribe(first).subscribe(second).is_subscribed(start.next_subscription()),
        start.subscribe(first).subscribe(second).unsubscribe(
            start.next_subscription(),
        ).subscriptions.entries == start.subscriptions.entries.push(
            Entry { id: start.next_subscription().id + 1, callback: second },
        ),
        start.subscribe(first).subscribe(second).unsubscribe(start.next_subscription()).wf(),
        after.deliveries() == start.deliveries() + start.subscriptions.announced(
            Universe::holding(after.read()),
        ).push(AppUniverseView::<U, F>::delivery(start.next_subscription().id + 1, after.read())),
{
    let h1 = start.next_subscription();
    let one = start.subscribe(first);
    let two = one.subscribe(second);
    let left = two.unsubscribe(h1);
    start.subscriptions.lemma_add_wf(first);
    one.subscriptions.lemma_add_wf(second);
    let k = start.subscriptions.entries.len() as int;
    two.subscriptions.lemma_remove_present(h1.id, k);
    two.subscriptions.lemma_cancel_wf(h1);
    assert(two.subscriptions.entries.remove(k) =~= start.subscriptions.entries.push(
        Entry { id: h1.id + 1, callback: second },
    ));
    let shown = Universe::holding(after.read());
    assert(left.subscriptions.announced(shown) =~= start.subscriptions.announced(shown).push(
        AppUniverseView::<U, F>::delivery(h1.id + 1, after.read()),
    ));
}

/// Two tokens of one store never stand for the same subscription, even where
/// the callbacks are the same: each `subscribe` hands out a token that the
/// store did not accept before and whose identity differs from every one
/// that the store handed out before, and cancelling the first of two leaves
/// the second live.
pub proof fn law_handle_non_aliasing<U: AppUniverseCore, F: FnMut(&Universe<U>)>(
    start: AppUniverseView<U, F>,
    callback: F,
)
    requires
        start.wf(),
        forall|universe: &Universe<U>| call_requires(callback, (universe,)),
    ensures
        !start.is_subscribed(start.next_subscription()),
        forall|token: TokenView|
            start.is_subscribed(token) ==> token.id < start.next_subscription().id,
        start.subscribe(callback).next_subscription().id != start.next_subscription().id,
        start.subscribe(callback).subscribe(callback).is_subscribed(start.next_subscription()),
        start.subscribe(callback).subscribe(callback).is_subscribed(
            start.subscribe(callback).next_subscription(),
        ),
        !start.subscribe(callback).subscribe(callback).unsubscribe(
            start.next_subscription(),
        ).is_subscribed(start.next_subscription()),
        start.subscribe(callback).subscribe(callback).unsubscribe(
            start.next_subscription(),
        ).is_subscribed(start.subscribe(callback).next_subscription()),
{
    let h1 = start.next_subscription();
    let one = start.subscribe(callback);
    let two = one.subscribe(callback);
    let left = two.unsubscribe(h1);
    start.subscriptions.lemma_add(callback);
    one.subscriptions.lemma_add(callback);
    assert forall|token: TokenView| start.is_subscribed(token) implies token.id < h1.id by {
        let i = start.subscriptions.ids().index_of(token.id);
        assert(start.subscriptions.ids()[i] == start.subscriptions.entries[i].id);
    }
    let k = start.subscriptions.entries.len() as int;
    two.subscriptions.lemma_remove_present(h1.id, k);
    two.subscriptions.lemma_cancel(h1);
    assert(left.subscriptions.ids()[k] == h1.id + 1);
}

/// A subscription that was cancelled stays cancelled: its token is not
/// accepted after the cancellation, nor after anything that is done to the
/// store later, and handing it in again changes nothing.
pub proof fn law_idempotent_absence<U: AppUniverseCore, F: FnMut(&Universe<U>)>(
    before: AppUniverseView<U, F>,
    token: TokenView,
    callback: F,
    other: TokenView,
    state: U,
)
    requires
        before.wf(),
    ensures
        !before.unsubscribe(token).is_subscribed(token),
        before.unsubscribe(token).unsubscribe(token) == before.unsubscribe(token),
        !before.is_subscribed(token) ==> before.unsubscribe(token) == before,
        token.id < before.next_subscription().id ==> !before.unsubscribe(token).subscribe(
            callback,
        ).is_subscribed(token),
        !before.unsubscribe(token).unsubscribe(other).is_subscribed(token),
        !before.unsubscribe(token).announce(state).is_subscribed(token),
{
    let gone = before.unsubscribe(token);
    before.subscriptions.lemma_cancel(token);
    gone.subscriptions.lemma_cancel(token);
    gone.subscriptions.lemma_cancel(other);
    if token.issuer == before.mark() {
        lemma_cancel_takes_nobody_in(gone.subscriptions, other, token.id);
    }
    if token.id < before.next_subscription().id {
        let grown = gone.subscriptions.add(callback);
        if grown.contains(token.id) {
            let i = grown.ids().index_of(token.id);
            assert(grown.ids()[i] == grown.entries[i].id);
            if i < gone.subscriptions.entries.len() {
                assert(gone.subscriptions.ids()[i] == token.id);
            }
        }
    }
}

/// A token of another store is never taken for one of this store: it is not
/// accepted, handing it in changes nothing, and nothing that is done to the
/// store later makes the store accept it, whatever identity it names.
pub proof fn law_foreign_token<U: AppUniverseCore, F: FnMut(&Universe<U>)>(
    store: AppUniverseView<U, F>,
    token: TokenView,
    callback: F,
    other: TokenView,
    state: U,
)
    requires
        store.wf(),
        token.issuer != store.mark(),
    ensures
        !store.is_subscribed(token),
        store.unsubscribe(token) == store,
        store.next_subscription() != token,
        !store.subscribe(callback).is_subscribed(token),
        !store.unsubscribe(other).is_subscribed(token),
        !store.announce(state).is_subscribed(token),
{
    store.subscriptions.lemma_cancel(other);
}

/// Taking a subscription out makes no other identity live.
proof fn lemma_cancel_takes_nobody_in<A, F>(
    registry: RegistryView<A, F>,
    token: TokenView,
    id: nat,
)
    requires
        registry.ordered(),
        !registry.contains(id),
    ensures
        !registry.cancel(token).contains(id),
{
    registry.lemma_cancel(token);
    let after = registry.cancel(token);
    if after.contains(id) {
        let i = after.ids().index_of(id);
        assert(after.ids()[i] == after.entries[i].id);
        if registry.accepts(token) {
            let k = registry.position(token.id);
            if i < k {
                assert(registry.ids()[i] == id);
            } else {
                assert(registry.ids()[i + 1] == id);
            }
        }
    }
}

} // verus!
