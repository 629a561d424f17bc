use std::cell::{Cell, RefCell};
use std::rc::Rc;

use gtk_pubsub::{Event, Publisher};

fn first(_e: Event) -> u32 {
    1
}

fn second(_e: Event) -> u32 {
    2
}

fn third(_e: Event) -> u32 {
    3
}

fn echo(e: Event) -> Event {
    e
}

#[test]
fn callbacks_of_one_tag_run_in_registration_order() {
    let mut p: Publisher<Event, fn(Event) -> u32> = Publisher::new();
    p.subscribe(Event::Test, second);
    p.subscribe(Event::Test, first);
    p.subscribe(Event::Test, third);
    assert_eq!(p.notify(Event::Test), vec![2, 1, 3]);
}

#[test]
fn side_effects_happen_in_registration_order() {
    let log: Rc<RefCell<Vec<u32>>> = Rc::new(RefCell::new(Vec::new()));
    let mut p: Publisher<Event, Box<dyn Fn(Event)>> = Publisher::new();
    for k in 0..5u32 {
        let l = log.clone();
        p.subscribe(Event::Test, Box::new(move |_e: Event| l.borrow_mut().push(k)));
    }
    let outcomes = p.notify(Event::Test);
    assert_eq!(outcomes.len(), 5);
    assert_eq!(*log.borrow(), vec![0, 1, 2, 3, 4]);
}

#[test]
fn same_callback_twice_runs_twice() {
    let count = Rc::new(Cell::new(0u32));
    let c = count.clone();
    let bump = move |_e: Event| c.set(c.get() + 1);
    let mut p = Publisher::new();
    p.subscribe(Event::Test, bump.clone());
    p.subscribe(Event::Test, bump);
    p.notify(Event::Test);
    assert_eq!(count.get(), 2);
    p.notify(Event::Test);
    assert_eq!(count.get(), 4);
}

#[test]
fn notify_reaches_only_its_own_tag() {
    let mut p: Publisher<Event, fn(Event) -> u32> = Publisher::new();
    p.subscribe(Event::Test, first);
    p.subscribe(Event::Nothing, second);
    p.subscribe(Event::Test, third);
    assert_eq!(p.notify(Event::Test), vec![1, 3]);
    assert_eq!(p.notify(Event::Nothing), vec![2]);
}

#[test]
fn other_tag_callbacks_are_not_invoked() {
    let count = Rc::new(Cell::new(0u32));
    let c = count.clone();
    let mut p = Publisher::new();
    p.subscribe(Event::Nothing, move |_e: Event| c.set(c.get() + 1));
    p.notify(Event::Test);
    assert_eq!(count.get(), 0);
    p.notify(Event::Nothing);
    assert_eq!(count.get(), 1);
}

#[test]
fn notify_without_subscribers_is_a_no_op() {
    let p: Publisher<Event, fn(Event) -> u32> = Publisher::new();
    assert_eq!(p.notify(Event::Test), Vec::<u32>::new());
    assert_eq!(p.notify(Event::Nothing), Vec::<u32>::new());
}

#[test]
fn notify_unsubscribed_tag_beside_subscribed_one() {
    let mut p: Publisher<Event, fn(Event) -> u32> = Publisher::new();
    p.subscribe(Event::Test, first);
    assert!(p.notify(Event::Nothing).is_empty());
}

#[test]
fn callbacks_receive_the_notified_tag() {
    let mut p: Publisher<Event, fn(Event) -> Event> = Publisher::new();
    p.subscribe(Event::Test, echo);
    p.subscribe(Event::Nothing, echo);
    assert_eq!(p.notify(Event::Test), vec![Event::Test]);
    assert_eq!(p.notify(Event::Nothing), vec![Event::Nothing]);
}

#[test]
fn publisher_keyed_by_integers() {
    let mut p: Publisher<u64, fn(u64) -> u64> = Publisher::new();
    p.subscribe(7, |x: u64| x + 1);
    p.subscribe(9, |x: u64| x * 2);
    p.subscribe(7, |x: u64| x * 10);
    assert_eq!(p.notify(7), vec![8, 70]);
    assert_eq!(p.notify(9), vec![18]);
    assert!(p.notify(8).is_empty());
}

#[test]
fn event_equality_tells_tags_apart() {
    assert_eq!(Event::Test, Event::Test);
    assert_eq!(Event::Nothing, Event::Nothing);
    assert_ne!(Event::Test, Event::Nothing);
}
