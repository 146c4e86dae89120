use protohackers::message::Ticket;
use protohackers::router::{Delivery, DispatchRouter, Registration};

fn ticket(plate: &str, road: u16) -> Ticket {
    Ticket {
        plate: plate.to_owned(),
        road,
        mile1: 0,
        timestamp1: 0,
        mile2: 60,
        timestamp2: 3000,
        speed: 7200,
    }
}

#[test]
fn router_starts_empty() {
    let router = DispatchRouter::new();
    assert!(router.registrations().is_empty());
    assert!(router.waiting().is_empty());
    assert_eq!(router.dispatcher_for(0), None);
}

#[test]
fn ticket_without_dispatcher_waits() {
    let mut router = DispatchRouter::new();
    assert_eq!(router.route(ticket("A", 101)), None);
    assert_eq!(router.waiting(), &vec![ticket("A", 101)]);
}

#[test]
fn ticket_with_dispatcher_is_delivered() {
    let mut router = DispatchRouter::new();
    assert_eq!(router.register(7, &vec![101, 102]), vec![]);
    assert_eq!(
        router.route(ticket("A", 102)),
        Some(Delivery { dispatcher: 7, ticket: ticket("A", 102) })
    );
    assert!(router.waiting().is_empty());
    assert_eq!(router.route(ticket("B", 103)), None);
    assert_eq!(router.waiting(), &vec![ticket("B", 103)]);
}

#[test]
fn first_registered_dispatcher_is_chosen() {
    let mut router = DispatchRouter::new();
    router.register(3, &vec![5]);
    router.register(1, &vec![5, 6]);
    router.register(2, &vec![6]);
    assert_eq!(router.dispatcher_for(5), Some(3));
    assert_eq!(router.dispatcher_for(6), Some(1));
    assert_eq!(router.dispatcher_for(7), None);
    assert_eq!(router.route(ticket("A", 5)).unwrap().dispatcher, 3);
    router.deregister(3);
    assert_eq!(router.route(ticket("A", 5)).unwrap().dispatcher, 1);
    router.deregister(1);
    assert_eq!(router.route(ticket("A", 6)).unwrap().dispatcher, 2);
    assert_eq!(router.route(ticket("Z", 5)), None);
}

#[test]
fn waiting_tickets_go_to_the_first_registrant_in_order() {
    let mut router = DispatchRouter::new();
    router.route(ticket("A", 101));
    router.route(ticket("B", 102));
    router.route(ticket("C", 101));
    router.route(ticket("D", 103));
    assert_eq!(router.register(9, &vec![101]), vec![ticket("A", 101), ticket("C", 101)]);
    assert_eq!(router.waiting(), &vec![ticket("B", 102), ticket("D", 103)]);
    // nothing is delivered twice
    assert_eq!(router.register(10, &vec![101]), vec![]);
    assert_eq!(router.register(9, &vec![101]), vec![]);
}

#[test]
fn roads_are_served_in_the_order_they_are_named() {
    let mut router = DispatchRouter::new();
    router.route(ticket("A", 1));
    router.route(ticket("B", 2));
    router.route(ticket("C", 1));
    router.route(ticket("D", 3));
    assert_eq!(
        router.register(4, &vec![2, 1]),
        vec![ticket("B", 2), ticket("A", 1), ticket("C", 1)]
    );
    assert_eq!(router.waiting(), &vec![ticket("D", 3)]);
}

#[test]
fn a_road_named_twice_is_registered_once() {
    let mut router = DispatchRouter::new();
    router.route(ticket("A", 1));
    assert_eq!(router.register(4, &vec![1, 1]), vec![ticket("A", 1)]);
    assert_eq!(router.registrations(), &vec![Registration { dispatcher: 4, road: 1 }]);
    assert!(router.is_registered(Registration { dispatcher: 4, road: 1 }));
    assert!(!router.is_registered(Registration { dispatcher: 4, road: 2 }));
    assert!(!router.is_registered(Registration { dispatcher: 5, road: 1 }));
}

#[test]
fn enroll_takes_one_road() {
    let mut router = DispatchRouter::new();
    router.route(ticket("A", 1));
    router.route(ticket("B", 2));
    assert_eq!(router.enroll(8, 2), vec![ticket("B", 2)]);
    assert_eq!(router.registrations(), &vec![Registration { dispatcher: 8, road: 2 }]);
    assert_eq!(router.waiting(), &vec![ticket("A", 1)]);
}

#[test]
fn registering_for_no_road_changes_nothing() {
    let mut router = DispatchRouter::new();
    router.route(ticket("A", 1));
    assert_eq!(router.register(4, &vec![]), vec![]);
    assert!(router.registrations().is_empty());
    assert_eq!(router.waiting().len(), 1);
}

#[test]
fn deregistering_removes_every_road_of_the_dispatcher() {
    let mut router = DispatchRouter::new();
    router.register(1, &vec![10, 20]);
    router.register(2, &vec![20, 30]);
    router.route(ticket("W", 40));
    router.deregister(1);
    assert_eq!(
        router.registrations(),
        &vec![Registration { dispatcher: 2, road: 20 }, Registration { dispatcher: 2, road: 30 }]
    );
    assert_eq!(router.waiting(), &vec![ticket("W", 40)]);
    assert_eq!(router.dispatcher_for(10), None);
    assert_eq!(router.dispatcher_for(20), Some(2));
    router.deregister(99);
    assert_eq!(router.registrations().len(), 2);
}

#[test]
fn tickets_queue_again_after_the_dispatcher_left() {
    let mut router = DispatchRouter::new();
    router.register(1, &vec![10]);
    assert!(router.route(ticket("A", 10)).is_some());
    router.deregister(1);
    assert_eq!(router.route(ticket("B", 10)), None);
    assert_eq!(router.route(ticket("C", 10)), None);
    assert_eq!(router.register(2, &vec![10]), vec![ticket("B", 10), ticket("C", 10)]);
    assert!(router.waiting().is_empty());
}
