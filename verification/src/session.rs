//! The rules of one connection.
//!
//! A connection starts without a role. It may declare itself a camera or a
//! dispatcher, once, and may ask for heartbeats, once. Only a camera may
//! report plates. A client that breaks these rules, or sends bytes that are
//! no message, is sent one Error frame, and the connection is closed. What
//! is to be done about each incoming message is returned as a [`Reaction`]
//! for the caller to carry out.

use vstd::prelude::*;
use vstd::std_specs::iter::IteratorSpec;
use crate::message::{
    IAmCamera, IAmDispatcher, IAmDispatcherView, Request, RequestView, Sighting, SightingView,
    WantHeartbeat,
};
use crate::wire::{deserialize_payload, error_bytes, serialize_error_msg, take_request};

verus! {

/// Why a connection is dropped.
#[derive(Debug, Clone, Copy, PartialEq, Eq)]
pub enum Fault {
    /// The bytes are no message that a client may send.
    MalformedMessage,
    /// The client declared a role when it had one.
    AlreadyIdentified,
    /// The client asked for heartbeats a second time.
    HeartbeatAlreadyRequested,
    /// The client reported a plate without being a camera.
    NotACamera,
}

impl Fault {
    /// The words that the client is told.
    pub open spec fn reason(self) -> Seq<char> {
        match self {
            Fault::MalformedMessage => "malformed message"@,
            Fault::AlreadyIdentified => "already identified"@,
            Fault::HeartbeatAlreadyRequested => "heartbeat already requested"@,
            Fault::NotACamera => "not a camera"@,
        }
    }

    /// The Error frame that the client is sent.
    pub open spec fn frame(self) -> Seq<u8> {
        error_bytes(self.reason())->0
    }

    /// True for a message that is well-formed but not allowed in the state
    /// of the connection; false for bytes that are no message.
    pub open spec fn is_violation(self) -> bool {
        self != Fault::MalformedMessage
    }

    /// Every reason fits an Error frame.
    pub proof fn lemma_reason_fits(self)
        ensures
            error_bytes(self.reason()) is Some,
    {
        reveal_strlit("malformed message");
        reveal_strlit("already identified");
        reveal_strlit("heartbeat already requested");
        reveal_strlit("not a camera");
    }

    /// The words that the client is told.
    pub fn message(&self) -> (text: &'static str)
        ensures
            text@ == self.reason(),
    {
        match self {
            Fault::MalformedMessage => "malformed message",
            Fault::AlreadyIdentified => "already identified",
            Fault::HeartbeatAlreadyRequested => "heartbeat already requested",
            Fault::NotACamera => "not a camera",
        }
    }

    /// Tells whether the fault is a breach of the protocol's rules rather
    /// than a failure to decode.
    pub fn is_protocol_violation(&self) -> (violation: bool)
        ensures
            violation == self.is_violation(),
    {
        match self {
            Fault::MalformedMessage => false,
            _ => true,
        }
    }

    /// The Error frame that the client is sent.
    pub fn error_frame(&self) -> (frame: Vec<u8>)
        ensures
            frame@ == self.frame(),
    {
        proof {
            self.lemma_reason_fits();
        }
        serialize_error_msg(self.message()).unwrap()
    }
}

/// What a connection has declared itself to be.
#[derive(Debug, Clone, PartialEq, Eq)]
pub enum Role {
    Unidentified,
    Camera(IAmCamera),
    Dispatcher(IAmDispatcher),
}

/// The mathematical value of a [`Role`].
pub enum RoleView {
    Unidentified,
    Camera(IAmCamera),
    Dispatcher(IAmDispatcherView),
}

impl View for Role {
    type V = RoleView;

    open spec fn view(&self) -> RoleView {
        match *self {
            Role::Unidentified => RoleView::Unidentified,
            Role::Camera(camera) => RoleView::Camera(camera),
            Role::Dispatcher(dispatcher) => RoleView::Dispatcher(dispatcher@),
        }
    }
}

/// The state of one connection.
#[derive(Debug, Clone, PartialEq, Eq)]
pub struct Client {
    pub role: Role,
    pub want_heartbeat: Option<WantHeartbeat>,
    pub closed: bool,
}

/// The mathematical value of a [`Client`].
pub struct ClientView {
    pub role: RoleView,
    pub want_heartbeat: Option<WantHeartbeat>,
    pub closed: bool,
}

impl View for Client {
    type V = ClientView;

    open spec fn view(&self) -> ClientView {
        ClientView { role: self.role@, want_heartbeat: self.want_heartbeat, closed: self.closed }
    }
}

/// What came in on a connection.
#[derive(Debug, Clone, PartialEq, Eq)]
pub enum Incoming {
    /// A message.
    Message(Request),
    /// Bytes that are no message.
    Malformed,
    /// The end of the stream, where a message would have started.
    Disconnected,
}

/// The mathematical value of an [`Incoming`].
pub enum IncomingView {
    Message(RequestView),
    Malformed,
    Disconnected,
}

impl View for Incoming {
    type V = IncomingView;

    open spec fn view(&self) -> IncomingView {
        match *self {
            Incoming::Message(request) => IncomingView::Message(request@),
            Incoming::Malformed => IncomingView::Malformed,
            Incoming::Disconnected => IncomingView::Disconnected,
        }
    }
}

/// What is to be done about an incoming message.
#[derive(Debug, Clone, PartialEq, Eq)]
pub enum Reaction {
    /// Nothing; go on reading.
    Proceed,
    /// Start sending heartbeats as asked.
    StartHeartbeat(WantHeartbeat),
    /// Register the connection as the dispatcher for these roads.
    Register(Vec<u16>),
    /// Hand this sighting, made where the speed limit is `limit`, to the
    /// ticket engine.
    Observe { sighting: Sighting, limit: u16 },
    /// Send this one Error frame, then close the connection.
    Reject { fault: Fault, frame: Vec<u8> },
    /// Close the connection without a word: the peer has left.
    Close,
    /// Nothing: the connection is closed.
    Ignore,
}

/// The mathematical value of a [`Reaction`].
pub enum ReactionView {
    Proceed,
    StartHeartbeat(WantHeartbeat),
    Register(Seq<u16>),
    Observe { sighting: SightingView, limit: u16 },
    Reject { fault: Fault, frame: Seq<u8> },
    Close,
    Ignore,
}

impl View for Reaction {
    type V = ReactionView;

    open spec fn view(&self) -> ReactionView {
        match *self {
            Reaction::Proceed => ReactionView::Proceed,
            Reaction::StartHeartbeat(heartbeat) => ReactionView::StartHeartbeat(heartbeat),
            Reaction::Register(roads) => ReactionView::Register(roads@),
            Reaction::Observe { sighting, limit } => ReactionView::Observe {
                sighting: sighting@,
                limit,
            },
            Reaction::Reject { fault, frame } => ReactionView::Reject { fault, frame: frame@ },
            Reaction::Close => ReactionView::Close,
            Reaction::Ignore => ReactionView::Ignore,
        }
    }
}

/// A state of a connection together with the reaction that led to it.
pub struct Step {
    pub client: ClientView,
    pub reaction: ReactionView,
}

/// What is at the head of a byte stream: nothing, a message, or bytes that
/// are no message.
pub open spec fn take_incoming(s: Seq<u8>) -> IncomingView {
    if s.len() == 0 {
        IncomingView::Disconnected
    } else {
        match take_request(s).value {
            Some(request) => IncomingView::Message(request),
            None => IncomingView::Malformed,
        }
    }
}

impl ClientView {
    /// The connection is closed, and the client is told why.
    pub open spec fn reject(self, fault: Fault) -> Step {
        Step {
            client: ClientView { closed: true, ..self },
            reaction: ReactionView::Reject { fault, frame: fault.frame() },
        }
    }

    /// The rules of a connection: the state after `incoming`, and what is to
    /// be done about it.
    pub open spec fn handle(self, incoming: IncomingView) -> Step {
        if self.closed {
            Step { client: self, reaction: ReactionView::Ignore }
        } else {
            match incoming {
                IncomingView::Disconnected => Step {
                    client: ClientView { closed: true, ..self },
                    reaction: ReactionView::Close,
                },
                IncomingView::Malformed => self.reject(Fault::MalformedMessage),
                IncomingView::Message(RequestView::IAmCamera(camera)) => {
                    if self.role is Unidentified {
                        Step {
                            client: ClientView { role: RoleView::Camera(camera), ..self },
                            reaction: ReactionView::Proceed,
                        }
                    } else {
                        self.reject(Fault::AlreadyIdentified)
                    }
                },
                IncomingView::Message(RequestView::IAmDispatcher(dispatcher)) => {
                    if self.role is Unidentified {
                        Step {
                            client: ClientView { role: RoleView::Dispatcher(dispatcher), ..self },
                            reaction: ReactionView::Register(dispatcher.roads),
                        }
                    } else {
                        self.reject(Fault::AlreadyIdentified)
                    }
                },
                IncomingView::Message(RequestView::WantHeartbeat(heartbeat)) => {
                    if self.want_heartbeat is None {
                        Step {
                            client: ClientView { want_heartbeat: Some(heartbeat), ..self },
                            reaction: ReactionView::StartHeartbeat(heartbeat),
                        }
                    } else {
                        self.reject(Fault::HeartbeatAlreadyRequested)
                    }
                },
                IncomingView::Message(RequestView::Plate(plate)) => {
                    match self.role {
                        RoleView::Camera(camera) => Step {
                            client: self,
                            reaction: ReactionView::Observe {
                                sighting: SightingView {
                                    plate: plate.plate,
                                    road: camera.road,
                                    mile: camera.mile,
                                    timestamp: plate.timestamp,
                                },
                                limit: camera.limit,
                            },
                        },
                        _ => self.reject(Fault::NotACamera),
                    }
                },
            }
        }
    }
}

/// Bytes that are no message close the connection with exactly one Error
/// frame, whatever the state of the connection before; and a closed
/// connection stays closed and gives rise to nothing more, whatever comes in.
pub proof fn lemma_malformed_closes_with_one_error(
    client: ClientView,
    bytes: Seq<u8>,
    later: IncomingView,
)
    requires
        !client.closed,
        bytes.len() > 0,
        take_request(bytes).value is None,
    ensures
        client.handle(take_incoming(bytes)).reaction == (ReactionView::Reject {
            fault: Fault::MalformedMessage,
            frame: Fault::MalformedMessage.frame(),
        }),
        error_bytes(Fault::MalformedMessage.reason()) == Some(Fault::MalformedMessage.frame()),
        client.handle(take_incoming(bytes)).client.closed,
        client.handle(take_incoming(bytes)).client.handle(later) == (Step {
            client: client.handle(take_incoming(bytes)).client,
            reaction: ReactionView::Ignore,
        }),
{
    Fault::MalformedMessage.lemma_reason_fits();
}

/// A type byte that no message of a client starts with makes the bytes
/// malformed.
pub proof fn lemma_unknown_type_is_malformed(bytes: Seq<u8>)
    requires
        bytes.len() > 0,
        bytes[0] != crate::wire::I_AM_CAMERA_FLAG,
        bytes[0] != crate::wire::I_AM_DISPATCHER_FLAG,
        bytes[0] != crate::wire::WANT_HEARTBEAT_FLAG,
        bytes[0] != crate::wire::PLATE_FLAG,
    ensures
        take_incoming(bytes) == IncomingView::Malformed,
{
}

/// A connection has one role at most: once it has one, it keeps it.
pub proof fn lemma_role_is_kept(client: ClientView, incoming: IncomingView)
    requires
        !(client.role is Unidentified),
    ensures
        client.handle(incoming).client.role == client.role,
        client.want_heartbeat is Some ==> client.handle(incoming).client.want_heartbeat
            == client.want_heartbeat,
{
}

impl Client {
    /// A connection that has said nothing yet.
    pub fn new() -> (client: Client)
        ensures
            client@ == (ClientView {
                role: RoleView::Unidentified,
                want_heartbeat: None,
                closed: false,
            }),
    {
        Client { role: Role::Unidentified, want_heartbeat: None, closed: false }
    }

    /// Tells whether the connection is a dispatcher's.
    pub fn is_dispatcher(&self) -> (dispatcher: bool)
        ensures
            dispatcher == (self@.role is Dispatcher),
    {
        match self.role {
            Role::Dispatcher(_) => true,
            _ => false,
        }
    }

    fn reject(&mut self, fault: Fault) -> (reaction: Reaction)
        ensures
            final(self)@ == old(self)@.reject(fault).client,
            reaction@ == old(self)@.reject(fault).reaction,
    {
        self.closed = true;
        Reaction::Reject { fault, frame: fault.error_frame() }
    }

    /// Applies the rules of a connection to what came in.
    pub fn handle(&mut self, incoming: Incoming) -> (reaction: Reaction)
        ensures
            final(self)@ == old(self)@.handle(incoming@).client,
            reaction@ == old(self)@.handle(incoming@).reaction,
    {
        if self.closed {
            return Reaction::Ignore;
        }
        match incoming {
            Incoming::Disconnected => {
                self.closed = true;
                Reaction::Close
            },
            Incoming::Malformed => self.reject(Fault::MalformedMessage),
            Incoming::Message(Request::IAmCamera(camera)) => {
                match self.role {
                    Role::Unidentified => {
                        self.role = Role::Camera(camera);
                        Reaction::Proceed
                    },
                    _ => self.reject(Fault::AlreadyIdentified),
                }
            },
            Incoming::Message(Request::IAmDispatcher(dispatcher)) => {
                match self.role {
                    Role::Unidentified => {
                        let roads = dispatcher.roads.clone();
                        self.role = Role::Dispatcher(dispatcher);
                        Reaction::Register(roads)
                    },
                    _ => self.reject(Fault::AlreadyIdentified),
                }
            },
            Incoming::Message(Request::WantHeartbeat(heartbeat)) => {
                match self.want_heartbeat {
                    None => {
                        self.want_heartbeat = Some(heartbeat);
                        Reaction::StartHeartbeat(heartbeat)
                    },
                    Some(_) => self.reject(Fault::HeartbeatAlreadyRequested),
                }
            },
            Incoming::Message(Request::Plate(plate)) => {
                match self.role {
                    Role::Camera(camera) => Reaction::Observe {
                        sighting: Sighting {
                            plate: plate.plate,
                            road: camera.road,
                            mile: camera.mile,
                            timestamp: plate.timestamp,
                        },
                        limit: camera.limit,
                    },
                    _ => self.reject(Fault::NotACamera),
                }
            },
        }
    }
}

/// Reads what is at the head of a connection's byte stream.
pub fn receive<I: Iterator<Item = u8>>(bytes: &mut I) -> (incoming: Incoming)
    ensures
        I::obeys_prophetic_iter_laws(final(bytes)) == I::obeys_prophetic_iter_laws(old(bytes)),
        I::obeys_prophetic_iter_laws(old(bytes)) ==> {
            &&& incoming@ == take_incoming(I::remaining(old(bytes)))
            &&& I::remaining(final(bytes)) == take_request(I::remaining(old(bytes))).rest
        },
{
    let flag = match bytes.next() {
        Some(flag) => flag,
        None => {
            return Incoming::Disconnected;
        },
    };
    match deserialize_payload(flag, bytes) {
        Some(request) => Incoming::Message(request),
        None => Incoming::Malformed,
    }
}

} // verus!
