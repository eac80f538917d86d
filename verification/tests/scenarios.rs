use app_universe::{AppUniverse, AppUniverseCore, Universe};
use std::cell::RefCell;
use std::rc::Rc;

struct Counter {
    counter: u8,
}

enum Msg {
    Increment(u8),
}

impl AppUniverseCore for Counter {
    type Message = Msg;

    fn msg(&mut self, message: Self::Message) {
        match message {
            Msg::Increment(value) => {
                self.counter += value;
            }
        }
    }
}

fn fresh_store() -> AppUniverse<Counter> {
    AppUniverse::new(Counter { counter: 0 })
}

/// A subscriber that adds the counter it is shown to `total`.
fn adds_counter_to(total: &Rc<RefCell<u32>>) -> Box<dyn FnMut(&Universe<Counter>)> {
    let total = total.clone();
    Box::new(move |universe| {
        *total.borrow_mut() += u32::from(universe.read().counter);
    })
}

/// A subscriber that adds two to `total`, whatever it is shown.
fn adds_two_to(total: &Rc<RefCell<u32>>) -> Box<dyn FnMut(&Universe<Counter>)> {
    let total = total.clone();
    Box::new(move |_| {
        *total.borrow_mut() += 2;
    })
}

/// A subscriber that writes `name` and the counter it is shown to `log`.
fn logs_as(name: u8, log: &Rc<RefCell<Vec<(u8, u8)>>>) -> Box<dyn FnMut(&Universe<Counter>)> {
    let log = log.clone();
    Box::new(move |universe| {
        log.borrow_mut().push((name, universe.read().counter));
    })
}

#[test]
fn dispatch_mutates() {
    let mut store = fresh_store();
    assert_eq!(store.read().counter, 0);

    store.msg(Msg::Increment(3));

    assert_eq!(store.read().counter, 3);
}

#[test]
fn subscriber_fires() {
    let x = Rc::new(RefCell::new(100));
    let mut store = fresh_store();
    store.subscribe(adds_counter_to(&x));

    store.msg(Msg::Increment(1));

    assert_eq!(*x.borrow(), 101);
}

#[test]
fn unsubscribe_stops_firing() {
    let x = Rc::new(RefCell::new(100));
    let mut store = fresh_store();
    let sub = store.subscribe(adds_counter_to(&x));

    store.msg(Msg::Increment(1));
    assert_eq!(*x.borrow(), 101);

    assert_eq!(store.unsubscribe(sub), Ok(()));
    store.msg(Msg::Increment(1));

    assert_eq!(*x.borrow(), 101);
    assert_eq!(store.read().counter, 2);
}

#[test]
fn two_subscribers_order_and_independence() {
    let x = Rc::new(RefCell::new(100));
    let y = Rc::new(RefCell::new(0));
    let mut store = fresh_store();
    let sub_a = store.subscribe(adds_counter_to(&x));
    let sub_b = store.subscribe(adds_counter_to(&y));

    store.msg(Msg::Increment(1));
    assert_eq!((*x.borrow(), *y.borrow()), (101, 1));

    assert_eq!(store.unsubscribe(sub_b), Ok(()));
    store.msg(Msg::Increment(1));
    assert_eq!((*x.borrow(), *y.borrow()), (103, 1));

    assert_eq!(store.unsubscribe(sub_a), Ok(()));
    store.msg(Msg::Increment(1));
    assert_eq!((*x.borrow(), *y.borrow()), (103, 1));
    assert_eq!(store.read().counter, 3);
}

#[test]
fn precise_removal_with_duplicate_bodies() {
    let x = Rc::new(RefCell::new(0));
    let mut store = fresh_store();
    let first = store.subscribe(adds_two_to(&x));
    let _second = store.subscribe(adds_two_to(&x));

    store.msg(Msg::Increment(0));
    assert_eq!(*x.borrow(), 4);

    assert_eq!(store.unsubscribe(first), Ok(()));
    store.msg(Msg::Increment(0));
    assert_eq!(*x.borrow(), 6);
    assert_eq!(store.read_subscriptions().len(), 1);
}

#[test]
fn double_unsubscribe() {
    let x = Rc::new(RefCell::new(100));
    let mut store = fresh_store();
    let sub = store.subscribe(adds_counter_to(&x));

    assert_eq!(store.unsubscribe(sub.clone()), Ok(()));
    assert_eq!(store.unsubscribe(sub), Err("Subscription not found"));

    store.msg(Msg::Increment(5));
    assert_eq!(*x.borrow(), 100);
    assert_eq!(store.read_subscriptions().len(), 0);
}

#[test]
fn read_shows_the_reduced_state_until_the_next_message() {
    let x = Rc::new(RefCell::new(0));
    let mut store = fresh_store();

    store.msg(Msg::Increment(7));
    assert_eq!(store.read().counter, 7);

    let sub = store.subscribe(adds_counter_to(&x));
    assert_eq!(store.read().counter, 7);
    assert_eq!(store.unsubscribe(sub), Ok(()));
    assert_eq!(store.read().counter, 7);

    store.msg(Msg::Increment(8));
    assert_eq!(store.read().counter, 15);
}

#[test]
fn every_subscriber_is_called_once_for_each_message() {
    let log = Rc::new(RefCell::new(Vec::new()));
    let mut store = fresh_store();
    for name in 0..5 {
        store.subscribe(logs_as(name, &log));
    }

    store.msg(Msg::Increment(9));

    let calls = log.borrow().clone();
    assert_eq!(calls.len(), 5);
    for name in 0..5 {
        assert_eq!(calls.iter().filter(|call| call.0 == name).count(), 1);
    }
    assert!(calls.iter().all(|call| call.1 == 9));
}

#[test]
fn subscribers_are_called_in_registration_order() {
    let log = Rc::new(RefCell::new(Vec::new()));
    let mut store = fresh_store();
    store.subscribe(logs_as(10, &log));
    store.subscribe(logs_as(30, &log));
    store.subscribe(logs_as(20, &log));

    store.msg(Msg::Increment(1));
    store.msg(Msg::Increment(2));

    assert_eq!(
        *log.borrow(),
        vec![(10, 1), (30, 1), (20, 1), (10, 3), (30, 3), (20, 3)]
    );
}

#[test]
fn removal_keeps_the_order_of_the_others() {
    let log = Rc::new(RefCell::new(Vec::new()));
    let mut store = fresh_store();
    let a = store.subscribe(logs_as(1, &log));
    store.subscribe(logs_as(2, &log));
    store.subscribe(logs_as(3, &log));
    store.subscribe(logs_as(4, &log));

    assert_eq!(store.unsubscribe(a), Ok(()));
    store.msg(Msg::Increment(1));

    assert_eq!(*log.borrow(), vec![(2, 1), (3, 1), (4, 1)]);
}

#[test]
fn unsubscribing_the_first_of_two_leaves_the_second() {
    let log = Rc::new(RefCell::new(Vec::new()));
    let mut store = fresh_store();
    let first = store.subscribe(logs_as(1, &log));
    let second = store.subscribe(logs_as(2, &log));

    assert_eq!(store.unsubscribe(first), Ok(()));
    store.msg(Msg::Increment(4));
    store.msg(Msg::Increment(4));

    assert_eq!(*log.borrow(), vec![(2, 4), (2, 8)]);
    assert_eq!(store.unsubscribe(second), Ok(()));
}

#[test]
fn handles_of_equal_callbacks_do_not_alias() {
    let x = Rc::new(RefCell::new(0));
    let mut store = fresh_store();
    let first = store.subscribe(adds_two_to(&x));
    let second = store.subscribe(adds_two_to(&x));

    assert_eq!(store.unsubscribe(first.clone()), Ok(()));
    assert_eq!(store.read_subscriptions().len(), 1);
    store.msg(Msg::Increment(0));
    assert_eq!(*x.borrow(), 2);

    assert_eq!(store.unsubscribe(first), Err("Subscription not found"));
    assert_eq!(store.read_subscriptions().len(), 1);
    assert_eq!(store.unsubscribe(second), Ok(()));
    assert_eq!(store.read_subscriptions().len(), 0);
}

#[test]
fn a_cancelled_handle_is_never_taken_up_again() {
    let x = Rc::new(RefCell::new(0));
    let mut store = fresh_store();
    let old = store.subscribe(adds_two_to(&x));
    assert_eq!(store.unsubscribe(old.clone()), Ok(()));

    let _new = store.subscribe(adds_two_to(&x));
    assert_eq!(store.unsubscribe(old), Err("Subscription not found"));

    store.msg(Msg::Increment(0));
    assert_eq!(*x.borrow(), 2);
}

#[test]
fn second_unsubscribe_changes_nothing() {
    let log = Rc::new(RefCell::new(Vec::new()));
    let mut store = fresh_store();
    store.subscribe(logs_as(1, &log));
    let b = store.subscribe(logs_as(2, &log));
    store.subscribe(logs_as(3, &log));

    assert_eq!(store.unsubscribe(b.clone()), Ok(()));
    assert_eq!(store.unsubscribe(b), Err("Subscription not found"));
    assert_eq!(store.read_subscriptions().len(), 2);

    store.msg(Msg::Increment(6));
    assert_eq!(*log.borrow(), vec![(1, 6), (3, 6)]);
}

#[test]
fn a_fresh_store_has_no_subscribers_and_room_for_more() {
    let mut store = fresh_store();
    assert_eq!(store.read_subscriptions().len(), 0);
    assert!(store.can_subscribe());

    store.msg(Msg::Increment(2));
    assert_eq!(store.read().counter, 2);
}

#[test]
fn closures_of_one_type_need_no_box() {
    let hits = Rc::new(RefCell::new(0));
    let make = |step: u32| {
        let hits = hits.clone();
        move |universe: &Universe<Counter>| {
            *hits.borrow_mut() += step + u32::from(universe.read().counter);
        }
    };
    let mut store = AppUniverse::new(Counter { counter: 0 });
    store.subscribe(make(10));
    let second = store.subscribe(make(100));

    store.msg(Msg::Increment(1));
    assert_eq!(*hits.borrow(), 112);

    assert_eq!(store.unsubscribe(second), Ok(()));
    store.msg(Msg::Increment(1));
    assert_eq!(*hits.borrow(), 124);
}

#[test]
fn a_token_of_another_store_is_not_found() {
    let x = Rc::new(RefCell::new(0));
    let y = Rc::new(RefCell::new(0));
    let mut a = fresh_store();
    let mut b = fresh_store();
    let in_a = a.subscribe(adds_two_to(&x));
    let in_b = b.subscribe(adds_two_to(&y));

    assert_eq!(a.unsubscribe(in_b.clone()), Err("Subscription not found"));
    assert_eq!(a.read_subscriptions().len(), 1);
    assert_eq!(b.read_subscriptions().len(), 1);

    a.msg(Msg::Increment(1));
    b.msg(Msg::Increment(1));
    assert_eq!((*x.borrow(), *y.borrow()), (2, 2));

    assert_eq!(b.unsubscribe(in_b), Ok(()));
    assert_eq!(a.unsubscribe(in_a), Ok(()));
    a.msg(Msg::Increment(1));
    b.msg(Msg::Increment(1));
    assert_eq!((*x.borrow(), *y.borrow()), (2, 2));
}

#[test]
fn a_token_outlives_its_store_without_fitting_a_later_one() {
    let x = Rc::new(RefCell::new(0));
    let stale = {
        let mut gone = fresh_store();
        gone.subscribe(adds_two_to(&x))
    };

    for _ in 0..8 {
        let mut later = fresh_store();
        let own = later.subscribe(adds_two_to(&x));
        assert_eq!(later.unsubscribe(stale.clone()), Err("Subscription not found"));
        assert_eq!(later.read_subscriptions().len(), 1);
        assert_eq!(later.unsubscribe(own), Ok(()));
    }
}

#[test]
fn a_cloned_token_stands_for_the_same_subscription() {
    let x = Rc::new(RefCell::new(0));
    let mut store = fresh_store();
    let token = store.subscribe(adds_two_to(&x));
    let copy = token.clone();
    drop(token);

    assert_eq!(store.unsubscribe(copy), Ok(()));
    assert_eq!(store.read_subscriptions().len(), 0);
}
