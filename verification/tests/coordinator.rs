use protohackers::coordinator::{Coordinator, Served};
use protohackers::message::{Sighting, Ticket};
use protohackers::router::Delivery;
use protohackers::session::{receive, Client, Reaction};
use protohackers::wire::serialize_ticket;

fn sighting(plate: &str, road: u16, mile: u16, timestamp: u32) -> Sighting {
    Sighting { plate: plate.to_owned(), road, mile, timestamp }
}

fn abc123() -> Ticket {
    Ticket {
        plate: "ABC123".to_owned(),
        road: 101,
        mile1: 0,
        timestamp1: 0,
        mile2: 60,
        timestamp2: 3000,
        speed: 7200,
    }
}

fn quiet() -> Served {
    Served { reply: None, deliveries: vec![], heartbeat: None, close: false }
}

fn feed(
    coordinator: &mut Coordinator,
    connection: u64,
    client: &mut Client,
    bytes: &[u8],
) -> Vec<Served> {
    let mut stream = bytes.to_vec().into_iter();
    let mut served = Vec::new();
    while stream.len() > 0 {
        let incoming = receive(&mut stream);
        served.push(coordinator.serve(connection, client, incoming));
    }
    served
}

#[test]
fn coordinator_starts_empty() {
    let coordinator = Coordinator::new();
    assert!(coordinator.engine().sightings().is_empty());
    assert!(coordinator.engine().issued().is_empty());
    assert!(coordinator.router().registrations().is_empty());
    assert!(coordinator.router().waiting().is_empty());
}

#[test]
fn ticket_reaches_the_registered_dispatcher() {
    let mut coordinator = Coordinator::new();
    assert_eq!(coordinator.register_dispatcher(1, &vec![101]), vec![]);
    assert_eq!(coordinator.observe(sighting("ABC123", 101, 0, 0), 60), vec![]);
    assert_eq!(
        coordinator.observe(sighting("ABC123", 101, 60, 3000), 60),
        vec![Delivery { dispatcher: 1, ticket: abc123() }]
    );
    assert!(coordinator.router().waiting().is_empty());
    assert_eq!(coordinator.engine().issued(), &vec![abc123()]);
}

#[test]
fn second_speeding_pair_on_the_same_day_brings_no_ticket() {
    let mut coordinator = Coordinator::new();
    coordinator.register_dispatcher(1, &vec![101]);
    coordinator.observe(sighting("ABC123", 101, 0, 0), 60);
    assert_eq!(coordinator.observe(sighting("ABC123", 101, 60, 3000), 60).len(), 1);
    assert_eq!(coordinator.observe(sighting("ABC123", 101, 200, 6000), 60), vec![]);
    assert_eq!(coordinator.observe(sighting("ABC123", 101, 400, 9000), 60), vec![]);
    assert_eq!(coordinator.engine().issued(), &vec![abc123()]);
    assert!(coordinator.router().waiting().is_empty());
}

#[test]
fn ticket_waits_for_a_dispatcher() {
    let mut coordinator = Coordinator::new();
    coordinator.observe(sighting("ABC123", 101, 0, 0), 60);
    assert_eq!(coordinator.observe(sighting("ABC123", 101, 60, 3000), 60), vec![]);
    assert_eq!(coordinator.router().waiting(), &vec![abc123()]);
    assert_eq!(coordinator.register_dispatcher(5, &vec![7]), vec![]);
    assert_eq!(
        coordinator.register_dispatcher(6, &vec![7, 101]),
        vec![Delivery { dispatcher: 6, ticket: abc123() }]
    );
    assert_eq!(coordinator.register_dispatcher(8, &vec![101]), vec![]);
    assert!(coordinator.router().waiting().is_empty());
}

#[test]
fn deregistered_dispatcher_gets_nothing() {
    let mut coordinator = Coordinator::new();
    coordinator.register_dispatcher(1, &vec![101]);
    coordinator.deregister_dispatcher(1);
    coordinator.observe(sighting("ABC123", 101, 0, 0), 60);
    assert_eq!(coordinator.observe(sighting("ABC123", 101, 60, 3000), 60), vec![]);
    assert_eq!(coordinator.router().waiting(), &vec![abc123()]);
}

#[test]
fn reactions_are_carried_out() {
    let mut coordinator = Coordinator::new();
    assert_eq!(coordinator.carry_out(1, Reaction::Proceed), quiet());
    assert_eq!(coordinator.carry_out(1, Reaction::Ignore), quiet());
    assert_eq!(coordinator.carry_out(1, Reaction::Register(vec![101])), quiet());
    assert_eq!(coordinator.router().registrations().len(), 1);
    assert_eq!(
        coordinator.carry_out(
            2,
            Reaction::Observe { sighting: sighting("ABC123", 101, 0, 0), limit: 60 }
        ),
        quiet()
    );
    assert_eq!(
        coordinator.carry_out(
            3,
            Reaction::Observe { sighting: sighting("ABC123", 101, 60, 3000), limit: 60 }
        ),
        Served { deliveries: vec![Delivery { dispatcher: 1, ticket: abc123() }], ..quiet() }
    );
    assert_eq!(coordinator.carry_out(2, Reaction::Close), Served { close: true, ..quiet() });
    assert_eq!(coordinator.router().registrations().len(), 1);
    assert_eq!(coordinator.carry_out(1, Reaction::Close), Served { close: true, ..quiet() });
    assert!(coordinator.router().registrations().is_empty());
}

#[test]
fn two_cameras_and_a_dispatcher() {
    let mut coordinator = Coordinator::new();
    let mut dispatcher = Client::new();
    let mut camera_a = Client::new();
    let mut camera_b = Client::new();

    // dispatcher for road 101
    let served = feed(&mut coordinator, 1, &mut dispatcher, b"\x81\x01\x00\x65");
    assert_eq!(served, vec![quiet()]);

    // camera A: road 101, mile 0, limit 60; plate ABC123 at 0
    let served = feed(
        &mut coordinator,
        2,
        &mut camera_a,
        b"\x80\x00\x65\x00\x00\x00\x3c\x20\x06ABC123\x00\x00\x00\x00",
    );
    assert_eq!(served, vec![quiet(), quiet()]);

    // camera B: road 101, mile 60, limit 60; plate ABC123 at 3000
    let served = feed(
        &mut coordinator,
        3,
        &mut camera_b,
        b"\x80\x00\x65\x00\x3c\x00\x3c\x20\x06ABC123\x00\x00\x0b\xb8",
    );
    assert_eq!(served.len(), 2);
    assert_eq!(served[0], quiet());
    assert_eq!(
        served[1],
        Served { deliveries: vec![Delivery { dispatcher: 1, ticket: abc123() }], ..quiet() }
    );
    assert_eq!(
        serialize_ticket(&served[1].deliveries[0].ticket).unwrap(),
        b"\x21\x06ABC123\x00\x65\x00\x00\x00\x00\x00\x00\x00\x3c\x00\x00\x0b\xb8\x1c\x20".to_vec()
    );

    // the same plate, speeding again on the same day: nothing more
    let served = feed(&mut coordinator, 2, &mut camera_a, b"\x20\x06ABC123\x00\x00\x27\x10");
    assert_eq!(served, vec![quiet()]);
    let served = feed(&mut coordinator, 3, &mut camera_b, b"\x20\x06ABC123\x00\x00\x2e\xe0");
    assert_eq!(served, vec![quiet()]);
    assert_eq!(coordinator.engine().issued().len(), 1);
    assert_eq!(coordinator.engine().sightings().len(), 4);
}

#[test]
fn malformed_frame_costs_only_its_sender() {
    let mut coordinator = Coordinator::new();
    let mut dispatcher = Client::new();
    let mut other = Client::new();
    let mut offender = Client::new();
    feed(&mut coordinator, 1, &mut dispatcher, b"\x81\x01\x00\x65");
    feed(&mut coordinator, 2, &mut other, b"\x81\x02\x00\x65\x00\x66");
    feed(&mut coordinator, 3, &mut offender, b"\x81\x01\x00\x67");
    let registrations = coordinator.router().registrations().clone();
    assert_eq!(registrations.len(), 4);

    let served = feed(&mut coordinator, 3, &mut offender, b"\xff\x81\x01\x00\x65");
    assert_eq!(served.len(), 2);
    assert_eq!(
        served[0],
        Served { reply: Some(b"\x10\x11malformed message".to_vec()), close: true, ..quiet() }
    );
    for later in &served[1..] {
        assert_eq!(later, &quiet());
    }
    assert!(offender.closed);
    assert!(!dispatcher.closed);
    assert!(!other.closed);
    assert_eq!(coordinator.router().registrations(), &registrations[..3].to_vec());
}

#[test]
fn violation_by_a_dispatcher_takes_it_out_of_the_router() {
    let mut coordinator = Coordinator::new();
    let mut dispatcher = Client::new();
    feed(&mut coordinator, 1, &mut dispatcher, b"\x81\x01\x00\x65");
    let served = feed(&mut coordinator, 1, &mut dispatcher, b"\x81\x01\x00\x65");
    assert_eq!(
        served,
        vec![Served {
            reply: Some(b"\x10\x12already identified".to_vec()),
            close: true,
            ..quiet()
        }]
    );
    assert!(coordinator.router().registrations().is_empty());
}

#[test]
fn heartbeat_request_is_passed_on() {
    let mut coordinator = Coordinator::new();
    let mut client = Client::new();
    let served = feed(&mut coordinator, 1, &mut client, b"\x40\x00\x00\x00\x0a");
    assert_eq!(served.len(), 1);
    assert_eq!(served[0].heartbeat.unwrap().interval, 10);
    assert!(!served[0].close);
    let served = feed(&mut coordinator, 1, &mut client, b"\x40\x00\x00\x00\x0a");
    assert_eq!(
        served[0],
        Served {
            reply: Some(b"\x10\x1bheartbeat already requested".to_vec()),
            close: true,
            ..quiet()
        }
    );
}

#[test]
fn disconnect_closes_without_reply() {
    let mut coordinator = Coordinator::new();
    let mut client = Client::new();
    feed(&mut coordinator, 4, &mut client, b"\x81\x01\x00\x65");
    let mut stream = Vec::<u8>::new().into_iter();
    let incoming = receive(&mut stream);
    assert_eq!(coordinator.serve(4, &mut client, incoming), Served { close: true, ..quiet() });
    assert!(coordinator.router().registrations().is_empty());
}
