//! The subscription registry as the contracts see it: a sequence of live
//! subscriptions in registration order, the number of identities handed out
//! so far, the mark that tells this registry from every other, and the record
//! of every subscriber call made so far.

use vstd::prelude::*;

verus! {

/// One live subscription: a callback under the identity it was registered
/// with.
pub struct Entry<F> {
    pub id: nat,
    pub callback: F,
}

/// One call of a subscriber: the identity of the subscription that was called
/// and the argument that its callback was given.
pub struct Delivery<A> {
    pub id: nat,
    pub argument: A,
}

/// A token as the contracts see it: the identity of a subscription and the
/// mark of the registry that issued the token.
pub struct TokenView {
    pub id: nat,
    pub issuer: nat,
}

/// The mathematical model of a registry of subscribers that take an `&A`.
pub struct RegistryView<A, F> {
    /// The live subscriptions, oldest first.
    pub entries: Seq<Entry<F>>,
    /// How many identities have been handed out; also the next identity.
    pub issued: nat,
    /// The mark of this registry, which every token that it issues carries.
    pub mark: nat,
    /// Every call of a subscriber made so far, oldest first.
    pub deliveries: Seq<Delivery<A>>,
}

impl<A, F> RegistryView<A, F> {
    /// The registry with the mark `mark` in which nothing was ever
    /// registered.
    pub open spec fn empty(mark: nat) -> Self {
        RegistryView { entries: Seq::empty(), issued: 0, mark, deliveries: Seq::empty() }
    }

    /// The identities of the live subscriptions, oldest first.
    pub open spec fn ids(self) -> Seq<nat> {
        self.entries.map_values(|e: Entry<F>| e.id)
    }

    /// Whether `id` is the identity of a live subscription.
    pub open spec fn contains(self, id: nat) -> bool {
        self.ids().contains(id)
    }

    /// Identities grow with registration and none is at or above the next one
    /// to hand out. So no two live subscriptions share an identity, and no
    /// identity that was handed out will be handed out again.
    pub open spec fn ordered(self) -> bool {
        &&& forall|i: int, j: int|
            0 <= i < j < self.entries.len() ==> self.entries[i].id < self.entries[j].id
        &&& forall|i: int| 0 <= i < self.entries.len() ==> self.entries[i].id < self.issued
    }

    /// The token that the next `add` hands out.
    pub open spec fn next_token(self) -> TokenView {
        TokenView { id: self.issued, issuer: self.mark }
    }

    /// The registry after `callback` was registered: it stands last, under
    /// the next identity.
    pub open spec fn add(self, callback: F) -> Self {
        RegistryView {
            entries: self.entries.push(Entry { id: self.issued, callback }),
            issued: self.issued + 1,
            mark: self.mark,
            deliveries: self.deliveries,
        }
    }

    /// The registry without the subscription `id`: every other subscription
    /// stays, in its place relative to the others.
    pub open spec fn remove(self, id: nat) -> Self {
        RegistryView {
            entries: self.entries.filter(|e: Entry<F>| e.id != id),
            issued: self.issued,
            mark: self.mark,
            deliveries: self.deliveries,
        }
    }

    /// Whether `token` stands for a live subscription of this registry: it
    /// carries the mark of this registry, and a live subscription has its
    /// identity.
    pub open spec fn accepts(self, token: TokenView) -> bool {
        token.issuer == self.mark && self.contains(token.id)
    }

    /// The registry after `token` was handed in for removal: a token of this
    /// registry takes out the subscription with its identity, a token of
    /// another registry changes nothing.
    pub open spec fn cancel(self, token: TokenView) -> Self {
        if token.issuer == self.mark {
            self.remove(token.id)
        } else {
            self
        }
    }

    /// The calls that one round of notification with `argument` makes: one
    /// for each live subscription, oldest first.
    pub open spec fn announced(self, argument: A) -> Seq<Delivery<A>> {
        self.entries.map_values(|e: Entry<F>| Delivery { id: e.id, argument })
    }

    /// The registry after every subscriber was called with `argument`.
    pub open spec fn notify(self, argument: A) -> Self {
        RegistryView {
            entries: self.entries,
            issued: self.issued,
            mark: self.mark,
            deliveries: self.deliveries + self.announced(argument),
        }
    }

    /// The registry after each of `callbacks` was registered, the first one
    /// first.
    pub open spec fn add_all(self, callbacks: Seq<F>) -> Self
        decreases callbacks.len(),
    {
        if callbacks.len() == 0 {
            self
        } else {
            self.add_all(callbacks.drop_last()).add(callbacks.last())
        }
    }
}

impl<A, F: FnMut(&A)> RegistryView<A, F> {
    /// Every registered callback accepts every argument.
    pub open spec fn callable(self) -> bool {
        forall|i: int, a: &A|
            0 <= i < self.entries.len() ==> #[trigger] call_requires(
                self.entries[i].callback,
                (a,),
            )
    }

    /// What holds of every registry that was built through its operations.
    pub open spec fn wf(self) -> bool {
        self.ordered() && self.callable()
    }
}

/// A filter that every element passes changes nothing.
proof fn lemma_filter_keeps_all<T>(s: Seq<T>, keep: spec_fn(T) -> bool)
    requires
        forall|i: int| 0 <= i < s.len() ==> keep(s[i]),
    ensures
        s.filter(keep) == s,
    decreases s.len(),
{
    reveal(Seq::filter);
    if s.len() > 0 {
        lemma_filter_keeps_all(s.drop_last(), keep);
        assert(s.drop_last().push(s.last()) =~= s);
    }
}

/// A filter that exactly one element fails takes out that element.
proof fn lemma_filter_drops_one<T>(s: Seq<T>, keep: spec_fn(T) -> bool, k: int)
    requires
        0 <= k < s.len(),
        !keep(s[k]),
        forall|i: int| 0 <= i < s.len() && i != k ==> keep(s[i]),
    ensures
        s.filter(keep) == s.remove(k),
{
    let front = s.take(k);
    let back = s.skip(k + 1);
    assert(s =~= front + (seq![s[k]] + back));
    Seq::filter_distributes_over_add(front, seq![s[k]] + back, keep);
    back.lemma_filter_prepend(s[k], keep);
    lemma_filter_keeps_all(front, keep);
    lemma_filter_keeps_all(back, keep);
    assert(s.remove(k) =~= front + (Seq::<T>::empty() + back));
}

impl<A, F> RegistryView<A, F> {
    /// Removing an identity that no live subscription has changes nothing.
    pub proof fn lemma_remove_absent(self, id: nat)
        requires
            !self.contains(id),
        ensures
            self.remove(id) == self,
    {
        let keep = |e: Entry<F>| e.id != id;
        assert forall|i: int| 0 <= i < self.entries.len() implies keep(self.entries[i]) by {
            assert(self.ids()[i] == self.entries[i].id);
        }
        lemma_filter_keeps_all(self.entries, keep);
    }

    /// Removing the identity of the subscription at position `k` takes out
    /// that subscription and no other.
    pub proof fn lemma_remove_present(self, id: nat, k: int)
        requires
            self.ordered(),
            0 <= k < self.entries.len(),
            self.entries[k].id == id,
        ensures
            self.contains(id),
            self.remove(id).entries == self.entries.remove(k),
    {
        let keep = |e: Entry<F>| e.id != id;
        assert(self.ids()[k] == id);
        lemma_filter_drops_one(self.entries, keep, k);
    }

    /// The position of the live subscription with identity `id`.
    pub open spec fn position(self, id: nat) -> int
        recommends
            self.contains(id),
    {
        self.ids().index_of(id)
    }

    /// What `remove` leaves: without a live subscription `id` the registry
    /// as it was, else the registry without the one entry that has it. Either
    /// way the order holds on, and `id` is no longer live.
    pub proof fn lemma_remove(self, id: nat)
        requires
            self.ordered(),
        ensures
            !self.contains(id) ==> self.remove(id) == self,
            self.contains(id) ==> {
                &&& 0 <= self.position(id) < self.entries.len()
                &&& self.entries[self.position(id)].id == id
                &&& self.remove(id).entries == self.entries.remove(self.position(id))
            },
            self.remove(id).ordered(),
            !self.remove(id).contains(id),
            self.remove(id).mark == self.mark,
            self.remove(id).issued == self.issued,
    {
        let after = self.remove(id);
        if self.contains(id) {
            let k = self.position(id);
            assert(self.ids()[k] == id);
            self.lemma_remove_present(id, k);
            assert forall|j: int| 0 <= j < after.ids().len() implies after.ids()[j] != id by {
                if j < k {
                    assert(after.entries[j] == self.entries[j]);
                } else {
                    assert(after.entries[j] == self.entries[j + 1]);
                }
            }
        } else {
            self.lemma_remove_absent(id);
        }
    }
}

impl<A, F> RegistryView<A, F> {
    /// What `cancel` leaves: where the registry does not accept the token,
    /// be it for its mark or for its identity, the registry as it was; else
    /// the registry without the one entry that has the token's identity.
    /// Either way the order holds on and the token is no longer accepted.
    pub proof fn lemma_cancel(self, token: TokenView)
        requires
            self.ordered(),
        ensures
            !self.accepts(token) ==> self.cancel(token) == self,
            self.accepts(token) ==> {
                &&& 0 <= self.position(token.id) < self.entries.len()
                &&& self.entries[self.position(token.id)].id == token.id
                &&& self.cancel(token).entries == self.entries.remove(self.position(token.id))
            },
            self.cancel(token).ordered(),
            !self.cancel(token).accepts(token),
            self.cancel(token).mark == self.mark,
            self.cancel(token).issued == self.issued,
    {
        self.lemma_remove(token.id);
    }

    /// The identity that `add` gives is one that no live subscription has,
    /// and the order holds on.
    pub proof fn lemma_add(self, callback: F)
        requires
            self.ordered(),
        ensures
            !self.contains(self.issued),
            !self.accepts(self.next_token()),
            self.add(callback).ordered(),
            self.add(callback).contains(self.issued),
            self.add(callback).accepts(self.next_token()),
            forall|id: nat| self.contains(id) ==> self.add(callback).contains(id),
    {
        let after = self.add(callback);
        assert forall|i: int| 0 <= i < self.ids().len() implies self.ids()[i] != self.issued by {
            assert(self.ids()[i] == self.entries[i].id);
        }
        assert(after.ids()[self.entries.len() as int] == self.issued);
        assert forall|id: nat| self.contains(id) implies after.contains(id) by {
            let i = self.ids().index_of(id);
            assert(after.ids()[i] == id);
        }
    }

    /// One round of notification calls each live subscription once, in
    /// registration order, and leaves the subscriptions as they were.
    pub proof fn lemma_notify(self, argument: A)
        requires
            self.ordered(),
        ensures
            self.notify(argument).entries == self.entries,
            self.notify(argument).issued == self.issued,
            self.notify(argument).ordered(),
            self.notify(argument).deliveries == self.deliveries + self.announced(argument),
            self.announced(argument).len() == self.entries.len(),
            forall|i: int|
                0 <= i < self.entries.len() ==> #[trigger] self.announced(argument)[i]
                    == (Delivery { id: self.entries[i].id, argument }),
            forall|i: int, j: int|
                0 <= i < j < self.entries.len() ==> self.announced(argument)[i].id
                    != self.announced(argument)[j].id,
    {
    }

    /// `add_all` appends the callbacks in their order, under consecutive
    /// identities, and calls nobody.
    pub proof fn lemma_add_all(self, callbacks: Seq<F>)
        requires
            self.ordered(),
        ensures
            self.add_all(callbacks).entries == self.entries + Seq::new(
                callbacks.len(),
                |i: int| Entry { id: (self.issued + i) as nat, callback: callbacks[i] },
            ),
            self.add_all(callbacks).issued == self.issued + callbacks.len(),
            self.add_all(callbacks).mark == self.mark,
            self.add_all(callbacks).deliveries == self.deliveries,
            self.add_all(callbacks).ordered(),
        decreases callbacks.len(),
    {
        if callbacks.len() > 0 {
            let front = callbacks.drop_last();
            self.lemma_add_all(front);
            self.add_all(front).lemma_add(callbacks.last());
        }
        assert(self.add_all(callbacks).entries =~= self.entries + Seq::new(
            callbacks.len(),
            |i: int| Entry { id: (self.issued + i) as nat, callback: callbacks[i] },
        ));
    }
}

impl<A, F: FnMut(&A)> RegistryView<A, F> {
    /// `add` keeps a registry well formed if the new callback accepts every
    /// argument.
    pub proof fn lemma_add_wf(self, callback: F)
        requires
            self.wf(),
            forall|a: &A| call_requires(callback, (a,)),
        ensures
            self.add(callback).wf(),
    {
        self.lemma_add(callback);
    }

    /// `add_all` keeps a registry well formed if the new callbacks accept
    /// every argument.
    pub proof fn lemma_add_all_wf(self, callbacks: Seq<F>)
        requires
            self.wf(),
            forall|i: int, a: &A|
                0 <= i < callbacks.len() ==> #[trigger] call_requires(callbacks[i], (a,)),
        ensures
            self.add_all(callbacks).wf(),
        decreases callbacks.len(),
    {
        if callbacks.len() > 0 {
            let front = callbacks.drop_last();
            assert forall|i: int, a: &A| 0 <= i < front.len() implies #[trigger] call_requires(
                front[i],
                (a,),
            ) by {
                assert(front[i] == callbacks[i]);
            }
            self.lemma_add_all_wf(front);
            self.add_all(front).lemma_add_wf(callbacks.last());
        }
    }

    /// `cancel` keeps a registry well formed.
    pub proof fn lemma_cancel_wf(self, token: TokenView)
        requires
            self.wf(),
        ensures
            self.cancel(token).wf(),
    {
        self.lemma_remove_wf(token.id);
    }

    /// `remove` keeps a registry well formed.
    pub proof fn lemma_remove_wf(self, id: nat)
        requires
            self.wf(),
        ensures
            self.remove(id).wf(),
    {
        self.lemma_remove(id);
        if self.contains(id) {
            let k = self.position(id);
            let after = self.remove(id);
            assert forall|i: int, a: &A| 0 <= i < after.entries.len() implies call_requires(
                after.entries[i].callback,
                (a,),
            ) by {
                if i < k {
                    assert(after.entries[i] == self.entries[i]);
                } else {
                    assert(after.entries[i] == self.entries[i + 1]);
                }
            }
        }
    }
}

} // verus!
