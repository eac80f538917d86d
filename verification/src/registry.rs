//! The subscription registry: the subscribers in registration order, each
//! under an identity that this registry hands out once. A token names a
//! subscription by that identity and carries the mark of the registry that
//! issued it, so that no other registry takes it for one of its own.

use crate::registry_model::Delivery;
use crate::registry_model::Entry;
use crate::registry_model::RegistryView;
use crate::registry_model::TokenView;
use std::rc::Rc;
use vstd::prelude::*;

verus! {

/// `Rc::as_ptr`, taken as a number: where the allocation behind `mark` lies.
/// Nothing is claimed of the number. A registry draws it once, when it is
/// created, and holds on to `mark`, as does every token that it issues: while
/// any of them is around, the allocation is, and no other registry can draw
/// the same number.
#[verifier::external_body]
fn mark_number(mark: &Rc<()>) -> (number: usize) {
    Rc::as_ptr(mark) as usize
}

/// The token that `add` hands out for a subscription. All it is good for is
/// to be handed to `remove`: it gives no access to the callback. Beside the
/// identity of its subscription it carries the mark of its registry, and it
/// keeps the allocation alive from which that mark was drawn.
#[derive(Debug)]
pub struct UniverseSubscription {
    id: u64,
    issuer: usize,
    keeps_alive: Rc<()>,
}

impl View for UniverseSubscription {
    type V = TokenView;

    /// The identity that the subscription has in the registry that issued
    /// the token, and the mark of that registry.
    closed spec fn view(&self) -> TokenView {
        TokenView { id: self.id as nat, issuer: self.issuer as nat }
    }
}

impl Clone for UniverseSubscription {
    /// A second token for the same subscription of the same registry.
    fn clone(&self) -> (copy: Self)
        ensures
            copy@ == self@,
    {
        UniverseSubscription {
            id: self.id,
            issuer: self.issuer,
            keeps_alive: self.keeps_alive.clone(),
        }
    }
}

/// What `remove` found.
#[derive(Clone, Copy, PartialEq, Eq, Structural, Debug)]
pub enum Removal {
    /// The token is one of this registry, its subscription was registered
    /// and is now gone.
    Removed,
    /// The token is one of another registry, or its subscription was not
    /// registered any more.
    NotFound,
}

/// A registered callback together with its identity.
pub struct Subscription<F> {
    id: u64,
    callback: F,
}

impl<F> View for Subscription<F> {
    type V = Entry<F>;

    closed spec fn view(&self) -> Entry<F> {
        Entry { id: self.id as nat, callback: self.callback }
    }
}

/// An ordered collection of subscribers that take an `&A`.
pub struct Registry<A, F> {
    records: Vec<Subscription<F>>,
    next_id: u64,
    mark: usize,
    keeps_alive: Rc<()>,
    delivered: Ghost<Seq<Delivery<A>>>,
}

impl<A, F> View for Registry<A, F> {
    type V = RegistryView<A, F>;

    closed spec fn view(&self) -> RegistryView<A, F> {
        RegistryView {
            entries: self.records@.map_values(|r: Subscription<F>| r@),
            issued: self.next_id as nat,
            mark: self.mark as nat,
            deliveries: self.delivered@,
        }
    }
}

impl<A, F: FnMut(&A)> Registry<A, F> {
    /// What holds of every registry that was built through its operations.
    pub open spec fn wf(&self) -> bool {
        self@.wf()
    }

    /// Creates a registry without subscribers, under a mark of its own.
    pub fn new() -> (registry: Self)
        ensures
            registry@ == RegistryView::<A, F>::empty(registry@.mark),
            registry.wf(),
    {
        let keeps_alive = Rc::new(());
        let registry = Registry {
            records: Vec::new(),
            next_id: 0,
            mark: mark_number(&keeps_alive),
            keeps_alive,
            delivered: Ghost(Seq::empty()),
        };
        assert(registry@.entries =~= Seq::empty());
        registry
    }

    /// The number of live subscriptions.
    pub fn len(&self) -> (count: usize)
        ensures
            count == self@.entries.len(),
    {
        self.records.len()
    }

    /// The live subscriptions, oldest first.
    pub fn records(&self) -> (records: &Vec<Subscription<F>>)
        ensures
            records@.map_values(|r: Subscription<F>| r@) == self@.entries,
    {
        &self.records
    }

    /// Whether an identity is left for one more subscription.
    pub fn can_add(&self) -> (free: bool)
        ensures
            free == (self@.issued < u64::MAX),
    {
        self.next_id < u64::MAX
    }

    /// Registers `callback` behind all the subscribers that are there and
    /// returns the token for it, which carries the mark of this registry.
    pub fn add(&mut self, callback: F) -> (subscription: UniverseSubscription)
        requires
            old(self).wf(),
            old(self)@.issued < u64::MAX,
            forall|a: &A| call_requires(callback, (a,)),
        ensures
            final(self)@ == old(self)@.add(callback),
            subscription@ == old(self)@.next_token(),
            final(self).wf(),
    {
        let id = self.next_id;
        self.records.push(Subscription { id, callback });
        self.next_id = id + 1;
        assert(self@.entries =~= old(self)@.add(callback).entries);
        UniverseSubscription { id, issuer: self.mark, keeps_alive: self.keeps_alive.clone() }
    }

    /// Takes out the subscription that `subscription` stands for, if this
    /// registry issued the token and the subscription is still registered,
    /// and leaves the others in their order. A token of another registry is
    /// not found, whatever identity it names.
    pub fn remove(&mut self, subscription: UniverseSubscription) -> (outcome: Removal)
        requires
            old(self).wf(),
        ensures
            final(self)@ == old(self)@.cancel(subscription@),
            outcome == Removal::Removed <==> old(self)@.accepts(subscription@),
            outcome == Removal::NotFound <==> !old(self)@.accepts(subscription@),
            outcome == Removal::NotFound ==> final(self)@ == old(self)@,
            final(self).wf(),
    {
        if subscription.issuer != self.mark {
            return Removal::NotFound;
        }
        let mut i: usize = 0;
        while i < self.records.len()
            invariant
                subscription.issuer == self.mark,
                i <= self.records.len(),
                old(self).wf(),
                *self == *old(self),
                forall|j: int| 0 <= j < i ==> self.records[j].id != subscription.id,
            decreases self.records.len() - i,
        {
            if self.records[i].id == subscription.id {
                let _ = self.records.remove(i);
                proof {
                    old(self)@.lemma_remove_present(subscription@.id, i as int);
                    old(self)@.lemma_remove_wf(subscription@.id);
                    assert(self@.entries =~= old(self)@.entries.remove(i as int));
                }
                return Removal::Removed;
            }
            i += 1;
        }
        proof {
            assert forall|j: int| 0 <= j < self@.ids().len() implies self@.ids()[j]
                != subscription@.id by {
                assert(self@.ids()[j] == self.records[j].id);
            }
            self@.lemma_remove_absent(subscription@.id);
        }
        Removal::NotFound
    }

    /// Calls the subscriber at `index` with `argument` and records the call.
    fn deliver(&mut self, index: usize, argument: &A)
        requires
            old(self).wf(),
            index < old(self).records.len(),
        ensures
            final(self).records@ == old(self).records@,
            final(self).next_id == old(self).next_id,
            final(self).mark == old(self).mark,
            final(self).keeps_alive == old(self).keeps_alive,
            final(self).delivered@ == old(self).delivered@.push(
                Delivery { id: old(self)@.entries[index as int].id, argument: *argument },
            ),
            call_ensures(old(self)@.entries[index as int].callback, (argument,), ()),
            final(self).wf(),
    {
        assert(self@.entries[index as int].callback == self.records[index as int].callback);
        (self.records[index].callback)(argument);
        assert(self.records@ == old(self).records@);
        assert(self@.entries == old(self)@.entries);
        proof {
            self.delivered@ = self.delivered@.push(
                Delivery { id: self.records[index as int].id as nat, argument: *argument },
            );
        }
    }

    /// Calls every subscriber with `argument`, oldest first.
    pub fn notify(&mut self, argument: &A)
        requires
            old(self).wf(),
        ensures
            final(self)@ == old(self)@.notify(*argument),
            forall|i: int|
                0 <= i < old(self)@.entries.len() ==> call_ensures(
                    #[trigger] old(self)@.entries[i].callback,
                    (argument,),
                    (),
                ),
            final(self).wf(),
    {
        let mut i: usize = 0;
        while i < self.records.len()
            invariant
                i <= self.records.len(),
                self.wf(),
                self.records@ == old(self).records@,
                self.next_id == old(self).next_id,
                self.mark == old(self).mark,
                self.delivered@ == old(self).delivered@ + old(self)@.announced(*argument).take(
                    i as int,
                ),
                forall|j: int|
                    0 <= j < i ==> call_ensures(
                        #[trigger] old(self)@.entries[j].callback,
                        (argument,),
                        (),
                    ),
            decreases self.records.len() - i,
        {
            assert(old(self)@.announced(*argument).take(i + 1) =~= old(self)@.announced(
                *argument,
            ).take(i as int).push(old(self)@.announced(*argument)[i as int]));
            self.deliver(i, argument);
            i += 1;
        }
        assert(old(self)@.announced(*argument).take(i as int) =~= old(self)@.announced(*argument));
    }
}

} // verus!
