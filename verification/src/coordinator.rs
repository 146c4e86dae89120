//! The coordinator: the one owner of the ticket engine and the dispatch
//! router.
//!
//! Every connection acts on the shared state through the coordinator, one
//! operation at a time: a camera's sighting is taken in and the tickets that
//! it brings are routed; a dispatcher is registered and handed what waits for
//! its roads; a connection that closes is taken out of the router. Each
//! operation returns the deliveries that the caller is to pass on, and each
//! ticket that the engine issues is either delivered or kept waiting, never
//! both.

use vstd::prelude::*;
use crate::engine::{new_tickets, no_shared_day, EngineView, TicketEngine};
use crate::message::{seq_view, Sighting, SightingView, Ticket, TicketView, WantHeartbeat};
use crate::router::{
    first_for, lemma_register_serves_queue, on_road, Delivery, DeliveryView, DispatchRouter,
    Registration, RouterView,
};
use crate::session::{Client, ClientView, Incoming, IncomingView, Reaction, ReactionView};

verus! {

/// The tickets for a road that has a dispatcher among `live`.
pub open spec fn served(live: Seq<Registration>) -> spec_fn(TicketView) -> bool {
    |ticket: TicketView| first_for(live, ticket.road) is Some
}

/// The tickets for a road that has no dispatcher among `live`.
pub open spec fn unserved(live: Seq<Registration>) -> spec_fn(TicketView) -> bool {
    |ticket: TicketView| first_for(live, ticket.road) is None
}

/// A ticket on its way to the dispatcher that registered first for its road.
pub open spec fn addressed(live: Seq<Registration>) -> spec_fn(TicketView) -> DeliveryView {
    |ticket: TicketView| DeliveryView { dispatcher: first_for(live, ticket.road)->0, ticket }
}

/// A ticket on its way to `dispatcher`.
pub open spec fn handed_to(dispatcher: u64) -> spec_fn(TicketView) -> DeliveryView {
    |ticket: TicketView| DeliveryView { dispatcher, ticket }
}

/// The state of a coordinator: that of its engine and that of its router.
pub struct CoordinatorView {
    pub engine: EngineView,
    pub router: RouterView,
}

/// A state of a coordinator together with the deliveries that led to it.
pub struct Outcome {
    pub coordinator: CoordinatorView,
    pub deliveries: Seq<DeliveryView>,
}

impl CoordinatorView {
    /// No two issued tickets for one plate share a day, and no ticket waits
    /// for a road that has a dispatcher.
    pub open spec fn wf(self) -> bool {
        no_shared_day(self.engine.issued) && self.router.wf()
    }

    /// A sighting is taken in. Of the tickets that it brings, those for a
    /// road with a dispatcher are delivered to the one that registered first,
    /// and the others wait behind the tickets that wait already.
    pub open spec fn observe(self, sighting: SightingView, limit: u16) -> Outcome {
        let tickets = new_tickets(self.engine.sightings, self.engine.issued, sighting, limit);
        Outcome {
            coordinator: CoordinatorView {
                engine: EngineView {
                    sightings: self.engine.sightings.push(sighting),
                    issued: self.engine.issued + tickets,
                },
                router: RouterView {
                    live: self.router.live,
                    pending: self.router.pending + tickets.filter(unserved(self.router.live)),
                },
            },
            deliveries: tickets.filter(served(self.router.live)).map_values(
                addressed(self.router.live),
            ),
        }
    }

    /// A dispatcher registers for `roads`, and is handed what waits for
    /// them.
    pub open spec fn register_dispatcher(self, dispatcher: u64, roads: Seq<u16>) -> Outcome {
        Outcome {
            coordinator: CoordinatorView {
                engine: self.engine,
                router: self.router.register(dispatcher, roads).router,
            },
            deliveries: self.router.register(dispatcher, roads).tickets.map_values(
                handed_to(dispatcher),
            ),
        }
    }

    /// A connection leaves: its registrations go, and nothing else changes.
    pub open spec fn deregister_dispatcher(self, dispatcher: u64) -> CoordinatorView {
        CoordinatorView { engine: self.engine, router: self.router.deregister(dispatcher) }
    }
}

/// What the caller is to do for a connection after an incoming message.
#[derive(Debug, Clone, PartialEq, Eq)]
pub struct Served {
    /// The frame to send to the connection itself, if any.
    pub reply: Option<Vec<u8>>,
    /// The tickets to pass on to dispatchers.
    pub deliveries: Vec<Delivery>,
    /// The heartbeats to start for the connection, if any.
    pub heartbeat: Option<WantHeartbeat>,
    /// Whether the connection is to be closed, once the reply is sent.
    pub close: bool,
}

/// The mathematical value of a [`Served`].
pub struct ServedView {
    pub reply: Option<Seq<u8>>,
    pub deliveries: Seq<DeliveryView>,
    pub heartbeat: Option<WantHeartbeat>,
    pub close: bool,
}

impl View for Served {
    type V = ServedView;

    open spec fn view(&self) -> ServedView {
        ServedView {
            reply: crate::message::option_view(self.reply),
            deliveries: seq_view(self.deliveries@),
            heartbeat: self.heartbeat,
            close: self.close,
        }
    }
}

/// The states of a coordinator and of a connection after an incoming
/// message, together with what the caller is to do.
pub struct Turn {
    pub coordinator: CoordinatorView,
    pub client: ClientView,
    pub served: ServedView,
}

/// Nothing to send, nothing to start, and the connection stays as it is.
pub open spec fn nothing_to_do() -> ServedView {
    ServedView { reply: None, deliveries: Seq::empty(), heartbeat: None, close: false }
}

impl CoordinatorView {
    /// What a reaction of connection number `connection` does to the shared
    /// state, and what the caller is to do. A connection that closes is taken
    /// out of the router; no other reaction touches what belongs to another
    /// connection.
    pub open spec fn carry_out(self, connection: u64, reaction: ReactionView) -> (
        CoordinatorView,
        ServedView,
    ) {
        match reaction {
            ReactionView::Proceed => (self, nothing_to_do()),
            ReactionView::Ignore => (self, nothing_to_do()),
            ReactionView::StartHeartbeat(heartbeat) => (
                self,
                ServedView { heartbeat: Some(heartbeat), ..nothing_to_do() },
            ),
            ReactionView::Register(roads) => (
                self.register_dispatcher(connection, roads).coordinator,
                ServedView {
                    deliveries: self.register_dispatcher(connection, roads).deliveries,
                    ..nothing_to_do()
                },
            ),
            ReactionView::Observe { sighting, limit } => (
                self.observe(sighting, limit).coordinator,
                ServedView {
                    deliveries: self.observe(sighting, limit).deliveries,
                    ..nothing_to_do()
                },
            ),
            ReactionView::Reject { fault, frame } => (
                self.deregister_dispatcher(connection),
                ServedView { reply: Some(frame), close: true, ..nothing_to_do() },
            ),
            ReactionView::Close => (
                self.deregister_dispatcher(connection),
                ServedView { close: true, ..nothing_to_do() },
            ),
        }
    }

    /// One turn of connection number `connection`: the rules of the
    /// connection decide on a reaction, and the reaction is carried out.
    pub open spec fn serve(self, connection: u64, client: ClientView, incoming: IncomingView) -> Turn {
        let step = client.handle(incoming);
        let done = self.carry_out(connection, step.reaction);
        Turn { coordinator: done.0, client: step.client, served: done.1 }
    }
}

/// The shared state of the service. Connections are told apart by the
/// numbers that the caller gives them: no two connections that are open at
/// the same time may have the same number.
pub struct Coordinator {
    engine: TicketEngine,
    router: DispatchRouter,
}

impl View for Coordinator {
    type V = CoordinatorView;

    closed spec fn view(&self) -> CoordinatorView {
        CoordinatorView { engine: self.engine@, router: self.router@ }
    }
}

/// Pairs each ticket with the dispatcher that it goes to.
fn hand_to(dispatcher: u64, tickets: Vec<Ticket>) -> (deliveries: Vec<Delivery>)
    ensures
        seq_view(deliveries@) == seq_view(tickets@).map_values(handed_to(dispatcher)),
{
    let mut deliveries: Vec<Delivery> = Vec::new();
    let ghost all = seq_view(tickets@);
    for ticket in it: tickets
        invariant
            it.seq() == tickets@,
            all == seq_view(tickets@),
            seq_view(deliveries@) == all.take(it.index()).map_values(handed_to(dispatcher)),
    {
        let ghost done = seq_view(deliveries@);
        deliveries.push(Delivery { dispatcher, ticket });
        assert(seq_view(deliveries@) =~= done.push(handed_to(dispatcher)(ticket@)));
    }
    deliveries
}

impl Coordinator {
    /// A coordinator that has seen nothing, with no dispatcher.
    pub fn new() -> (coordinator: Coordinator)
        ensures
            coordinator@.wf(),
            coordinator@.engine.sightings == Seq::<SightingView>::empty(),
            coordinator@.engine.issued == Seq::<TicketView>::empty(),
            coordinator@.router.live == Seq::<Registration>::empty(),
            coordinator@.router.pending == Seq::<TicketView>::empty(),
    {
        Coordinator { engine: TicketEngine::new(), router: DispatchRouter::new() }
    }

    /// The ticket engine.
    pub fn engine(&self) -> (engine: &TicketEngine)
        ensures
            engine@ == self@.engine,
    {
        &self.engine
    }

    /// The dispatch router.
    pub fn router(&self) -> (router: &DispatchRouter)
        ensures
            router@ == self@.router,
    {
        &self.router
    }

    /// Takes in a sighting made where the speed limit is `limit`, routes the
    /// tickets that it brings, and returns those that are to be delivered
    /// now.
    pub fn observe(&mut self, sighting: Sighting, limit: u16) -> (deliveries: Vec<Delivery>)
        requires
            old(self)@.wf(),
        ensures
            final(self)@.wf(),
            final(self)@ == old(self)@.observe(sighting@, limit).coordinator,
            seq_view(deliveries@) == old(self)@.observe(sighting@, limit).deliveries,
    {
        let ghost before = self@;
        let ghost live = self@.router.live;
        let tickets = self.engine.ingest(sighting, limit);
        let ghost all = seq_view(tickets@);
        let mut deliveries: Vec<Delivery> = Vec::new();
        for ticket in it: tickets
            invariant
                it.seq() == tickets@,
                all == seq_view(tickets@),
                self@.engine == before.observe(sighting@, limit).coordinator.engine,
                no_shared_day(self@.engine.issued),
                self@.router.wf(),
                self@.router.live == live,
                self@.router.pending == before.router.pending + all.take(it.index()).filter(
                    unserved(live),
                ),
                seq_view(deliveries@) == all.take(it.index()).filter(served(live)).map_values(
                    addressed(live),
                ),
        {
            let ghost done = seq_view(deliveries@);
            proof {
                reveal(Seq::filter);
                assert(all.take(it.index() + 1).drop_last() =~= all.take(it.index()));
            }
            match self.router.route(ticket) {
                Some(delivery) => {
                    deliveries.push(delivery);
                    assert(seq_view(deliveries@) =~= done.push(addressed(live)(ticket@)));
                },
                None => {},
            }
        }
        assert(all.take(all.len() as int) =~= all);
        deliveries
    }

    /// Registers a dispatcher for `roads`, and returns the tickets that
    /// waited for them, all addressed to it.
    pub fn register_dispatcher(&mut self, dispatcher: u64, roads: &Vec<u16>) -> (deliveries: Vec<
        Delivery,
    >)
        requires
            old(self)@.wf(),
        ensures
            final(self)@.wf(),
            final(self)@ == old(self)@.register_dispatcher(dispatcher, roads@).coordinator,
            seq_view(deliveries@) == old(self)@.register_dispatcher(dispatcher, roads@).deliveries,
    {
        let tickets = self.router.register(dispatcher, roads);
        hand_to(dispatcher, tickets)
    }

    /// Removes the registrations of a connection that has closed.
    pub fn deregister_dispatcher(&mut self, dispatcher: u64)
        requires
            old(self)@.wf(),
        ensures
            final(self)@.wf(),
            final(self)@ == old(self)@.deregister_dispatcher(dispatcher),
    {
        self.router.deregister(dispatcher);
    }

    /// Carries out the reaction of connection number `connection`.
    pub fn carry_out(&mut self, connection: u64, reaction: Reaction) -> (served: Served)
        requires
            old(self)@.wf(),
        ensures
            final(self)@.wf(),
            final(self)@ == old(self)@.carry_out(connection, reaction@).0,
            served@ == old(self)@.carry_out(connection, reaction@).1,
    {
        let mut served = Served {
            reply: None,
            deliveries: Vec::new(),
            heartbeat: None,
            close: false,
        };
        assert(served@.deliveries =~= Seq::<DeliveryView>::empty());
        match reaction {
            Reaction::Proceed => {},
            Reaction::Ignore => {},
            Reaction::StartHeartbeat(heartbeat) => {
                served.heartbeat = Some(heartbeat);
            },
            Reaction::Register(roads) => {
                served.deliveries = self.register_dispatcher(connection, &roads);
            },
            Reaction::Observe { sighting, limit } => {
                served.deliveries = self.observe(sighting, limit);
            },
            Reaction::Reject { fault, frame } => {
                self.deregister_dispatcher(connection);
                served.reply = Some(frame);
                served.close = true;
            },
            Reaction::Close => {
                self.deregister_dispatcher(connection);
                served.close = true;
            },
        }
        served
    }

    /// Serves one incoming message of connection number `connection`: applies
    /// the rules of the connection, carries out the reaction, and returns
    /// what the caller is to send and to do.
    pub fn serve(&mut self, connection: u64, client: &mut Client, incoming: Incoming) -> (served:
        Served)
        requires
            old(self)@.wf(),
        ensures
            final(self)@.wf(),
            final(self)@ == old(self)@.serve(connection, old(client)@, incoming@).coordinator,
            final(client)@ == old(self)@.serve(connection, old(client)@, incoming@).client,
            served@ == old(self)@.serve(connection, old(client)@, incoming@).served,
    {
        let reaction = client.handle(incoming);
        self.carry_out(connection, reaction)
    }
}

/// Every ticket goes one way: either it is delivered or it waits. The
/// tickets delivered and the tickets made to wait are as many as the tickets
/// issued, and no ticket is both.
pub proof fn lemma_every_ticket_goes_one_way(
    tickets: Seq<TicketView>,
    live: Seq<Registration>,
    ticket: TicketView,
)
    ensures
        tickets.filter(served(live)).len() + tickets.filter(unserved(live)).len() == tickets.len(),
        served(live)(ticket) != unserved(live)(ticket),
    decreases tickets.len(),
{
    reveal(Seq::filter);
    if tickets.len() > 0 {
        lemma_every_ticket_goes_one_way(tickets.drop_last(), live, ticket);
    }
}

/// Of the tickets for a road without a dispatcher, all are among those
/// without a dispatcher.
proof fn lemma_unserved_on_road(tickets: Seq<TicketView>, live: Seq<Registration>, road: u16)
    requires
        first_for(live, road) is None,
    ensures
        tickets.filter(unserved(live)).filter(on_road(road)) == tickets.filter(on_road(road)),
    decreases tickets.len(),
{
    reveal(Seq::filter);
    if tickets.len() > 0 {
        lemma_unserved_on_road(tickets.drop_last(), live, road);
        let head = tickets.drop_last().filter(unserved(live));
        if unserved(live)(tickets.last()) {
            assert(head.push(tickets.last()).drop_last() =~= head);
        }
    }
}

/// The tickets that a sighting brings for a road without a dispatcher are
/// not delivered: they wait behind those that wait already, in the order of
/// their issue. The dispatcher that registers for the road next is handed
/// them all, in that order, and then nothing waits for the road.
pub proof fn lemma_tickets_wait_for_a_dispatcher(
    coordinator: CoordinatorView,
    sighting: SightingView,
    limit: u16,
    dispatcher: u64,
    roads: Seq<u16>,
    road: u16,
)
    requires
        first_for(coordinator.router.live, road) is None,
        roads.contains(road),
    ensures
        forall|i: int|
            0 <= i < coordinator.observe(sighting, limit).deliveries.len() ==> (
            #[trigger] coordinator.observe(sighting, limit).deliveries[i]).ticket.road != road,
        coordinator.observe(sighting, limit).coordinator.router.queue(road)
            == coordinator.router.queue(road) + new_tickets(
            coordinator.engine.sightings,
            coordinator.engine.issued,
            sighting,
            limit,
        ).filter(on_road(road)),
        coordinator.observe(sighting, limit).coordinator.router.register(
            dispatcher,
            roads,
        ).tickets.filter(on_road(road)) == coordinator.observe(
            sighting,
            limit,
        ).coordinator.router.queue(road),
        coordinator.observe(sighting, limit).coordinator.register_dispatcher(
            dispatcher,
            roads,
        ).coordinator.router.queue(road) == Seq::<TicketView>::empty(),
{
    let live = coordinator.router.live;
    let tickets = new_tickets(
        coordinator.engine.sightings,
        coordinator.engine.issued,
        sighting,
        limit,
    );
    let seen = coordinator.observe(sighting, limit);
    assert forall|i: int| 0 <= i < seen.deliveries.len() implies (
    #[trigger] seen.deliveries[i]).ticket.road != road by {
        tickets.lemma_filter_pred(served(live), i);
    }
    Seq::filter_distributes_over_add(
        coordinator.router.pending,
        tickets.filter(unserved(live)),
        on_road(road),
    );
    lemma_unserved_on_road(tickets, live, road);
    lemma_register_serves_queue(seen.coordinator.router, dispatcher, roads, road);
}

/// Bytes that are no message cost the sender its connection and nothing
/// else: it is sent exactly one Error frame and closed, the engine and the
/// waiting tickets are as before, and so is every registration of another
/// connection.
pub proof fn lemma_malformed_frame_is_contained(
    coordinator: CoordinatorView,
    connection: u64,
    client: ClientView,
    bytes: Seq<u8>,
)
    requires
        !client.closed,
        bytes.len() > 0,
        crate::wire::take_request(bytes).value is None,
    ensures
        coordinator.serve(connection, client, crate::session::take_incoming(bytes)).served == (
        ServedView {
            reply: crate::wire::error_bytes(crate::session::Fault::MalformedMessage.reason()),
            deliveries: Seq::empty(),
            heartbeat: None,
            close: true,
        }),
        coordinator.serve(connection, client, crate::session::take_incoming(bytes)).client.closed,
        coordinator.serve(
            connection,
            client,
            crate::session::take_incoming(bytes),
        ).coordinator.engine == coordinator.engine,
        coordinator.serve(
            connection,
            client,
            crate::session::take_incoming(bytes),
        ).coordinator.router.pending == coordinator.router.pending,
        coordinator.serve(
            connection,
            client,
            crate::session::take_incoming(bytes),
        ).coordinator.router.live == coordinator.router.live.filter(
            crate::router::not_of(connection),
        ),
{
    crate::session::Fault::MalformedMessage.lemma_reason_fits();
}

} // verus!
