use protohackers::message::{
    IAmCamera, IAmDispatcher, Plate, Request, Sighting, WantHeartbeat,
};
use protohackers::session::{receive, Client, Fault, Incoming, Reaction, Role};

fn camera() -> Request {
    Request::IAmCamera(IAmCamera { road: 66, mile: 100, limit: 60 })
}

fn dispatcher() -> Request {
    Request::IAmDispatcher(IAmDispatcher { roads: vec![66, 368] })
}

fn heartbeat(interval: u32) -> Request {
    Request::WantHeartbeat(WantHeartbeat { interval })
}

fn plate(text: &str, timestamp: u32) -> Request {
    Request::Plate(Plate { plate: text.to_owned(), timestamp })
}

fn rejection(fault: Fault, text: &str) -> Reaction {
    let mut frame = vec![0x10, text.len() as u8];
    frame.extend_from_slice(text.as_bytes());
    Reaction::Reject { fault, frame }
}

#[test]
fn new_client_has_no_role() {
    let client = Client::new();
    assert_eq!(client.role, Role::Unidentified);
    assert_eq!(client.want_heartbeat, None);
    assert!(!client.closed);
    assert!(!client.is_dispatcher());
}

#[test]
fn fault_messages() {
    assert_eq!(Fault::MalformedMessage.message(), "malformed message");
    assert_eq!(Fault::AlreadyIdentified.message(), "already identified");
    assert_eq!(Fault::HeartbeatAlreadyRequested.message(), "heartbeat already requested");
    assert_eq!(Fault::NotACamera.message(), "not a camera");
    assert!(!Fault::MalformedMessage.is_protocol_violation());
    assert!(Fault::AlreadyIdentified.is_protocol_violation());
    assert!(Fault::HeartbeatAlreadyRequested.is_protocol_violation());
    assert!(Fault::NotACamera.is_protocol_violation());
    assert_eq!(
        Fault::NotACamera.error_frame(),
        b"\x10\x0cnot a camera".to_vec()
    );
    assert_eq!(
        Fault::MalformedMessage.error_frame(),
        b"\x10\x11malformed message".to_vec()
    );
}

#[test]
fn camera_is_accepted_once() {
    let mut client = Client::new();
    assert_eq!(client.handle(Incoming::Message(camera())), Reaction::Proceed);
    assert_eq!(client.role, Role::Camera(IAmCamera { road: 66, mile: 100, limit: 60 }));
    assert!(!client.closed);
    assert_eq!(
        client.handle(Incoming::Message(camera())),
        rejection(Fault::AlreadyIdentified, "already identified")
    );
    assert!(client.closed);
}

#[test]
fn dispatcher_is_accepted_once() {
    let mut client = Client::new();
    assert_eq!(
        client.handle(Incoming::Message(dispatcher())),
        Reaction::Register(vec![66, 368])
    );
    assert!(client.is_dispatcher());
    assert_eq!(
        client.handle(Incoming::Message(dispatcher())),
        rejection(Fault::AlreadyIdentified, "already identified")
    );
    assert!(client.closed);
    assert!(client.is_dispatcher());
}

#[test]
fn camera_cannot_become_dispatcher() {
    let mut client = Client::new();
    client.handle(Incoming::Message(camera()));
    assert_eq!(
        client.handle(Incoming::Message(dispatcher())),
        rejection(Fault::AlreadyIdentified, "already identified")
    );
    assert!(!client.is_dispatcher());
}

#[test]
fn dispatcher_cannot_become_camera() {
    let mut client = Client::new();
    client.handle(Incoming::Message(dispatcher()));
    assert_eq!(
        client.handle(Incoming::Message(camera())),
        rejection(Fault::AlreadyIdentified, "already identified")
    );
    assert!(client.is_dispatcher());
}

#[test]
fn heartbeat_is_accepted_once_in_any_role() {
    let mut client = Client::new();
    assert_eq!(
        client.handle(Incoming::Message(heartbeat(10))),
        Reaction::StartHeartbeat(WantHeartbeat { interval: 10 })
    );
    assert_eq!(client.role, Role::Unidentified);
    assert_eq!(client.handle(Incoming::Message(camera())), Reaction::Proceed);
    assert_eq!(
        client.handle(Incoming::Message(heartbeat(0))),
        rejection(Fault::HeartbeatAlreadyRequested, "heartbeat already requested")
    );
    assert!(client.closed);

    let mut client = Client::new();
    client.handle(Incoming::Message(dispatcher()));
    assert_eq!(
        client.handle(Incoming::Message(heartbeat(0))),
        Reaction::StartHeartbeat(WantHeartbeat { interval: 0 })
    );
    assert_eq!(client.want_heartbeat, Some(WantHeartbeat { interval: 0 }));
    assert_eq!(
        client.handle(Incoming::Message(heartbeat(0))),
        rejection(Fault::HeartbeatAlreadyRequested, "heartbeat already requested")
    );
}

#[test]
fn plate_from_a_camera_is_a_sighting() {
    let mut client = Client::new();
    client.handle(Incoming::Message(camera()));
    assert_eq!(
        client.handle(Incoming::Message(plate("UN1X", 1000))),
        Reaction::Observe {
            sighting: Sighting { plate: "UN1X".to_owned(), road: 66, mile: 100, timestamp: 1000 },
            limit: 60
        }
    );
    assert!(!client.closed);
    assert_eq!(
        client.handle(Incoming::Message(plate("UN1X", 5))),
        Reaction::Observe {
            sighting: Sighting { plate: "UN1X".to_owned(), road: 66, mile: 100, timestamp: 5 },
            limit: 60
        }
    );
}

#[test]
fn plate_from_anyone_else_is_a_violation() {
    let mut client = Client::new();
    assert_eq!(
        client.handle(Incoming::Message(plate("UN1X", 1000))),
        rejection(Fault::NotACamera, "not a camera")
    );
    assert!(client.closed);
    let mut client = Client::new();
    client.handle(Incoming::Message(dispatcher()));
    assert_eq!(
        client.handle(Incoming::Message(plate("UN1X", 1000))),
        rejection(Fault::NotACamera, "not a camera")
    );
    assert!(client.closed);
}

#[test]
fn malformed_bytes_give_one_error_and_close() {
    let mut client = Client::new();
    assert_eq!(
        client.handle(Incoming::Malformed),
        rejection(Fault::MalformedMessage, "malformed message")
    );
    assert!(client.closed);
    assert_eq!(client.handle(Incoming::Malformed), Reaction::Ignore);
    assert_eq!(client.handle(Incoming::Message(camera())), Reaction::Ignore);
    assert_eq!(client.handle(Incoming::Disconnected), Reaction::Ignore);
    assert_eq!(client.role, Role::Unidentified);
    assert!(client.closed);
}

#[test]
fn disconnect_closes_silently() {
    let mut client = Client::new();
    client.handle(Incoming::Message(dispatcher()));
    assert_eq!(client.handle(Incoming::Disconnected), Reaction::Close);
    assert!(client.closed);
    assert_eq!(client.handle(Incoming::Message(heartbeat(1))), Reaction::Ignore);
    assert_eq!(client.want_heartbeat, None);
}

#[test]
fn receive_tells_messages_from_garbage_and_silence() {
    let mut bytes = b"\x80\x00\x42\x00\x64\x00\x3c\xff".to_vec().into_iter();
    assert_eq!(receive(&mut bytes), Incoming::Message(camera()));
    assert_eq!(receive(&mut bytes), Incoming::Malformed);
    assert_eq!(receive(&mut bytes), Incoming::Disconnected);
    let mut bytes = b"\x20\x04\x55\x4e".to_vec().into_iter();
    assert_eq!(receive(&mut bytes), Incoming::Malformed);
    let mut bytes = b"\x20\x01\xc0\x00\x00\x00\x00".to_vec().into_iter();
    assert_eq!(receive(&mut bytes), Incoming::Malformed);
}

#[test]
fn server_frames_are_not_requests() {
    for flag in [0x10u8, 0x21, 0x41] {
        let mut bytes = vec![flag, 0, 0, 0, 0].into_iter();
        assert_eq!(receive(&mut bytes), Incoming::Malformed);
    }
}
