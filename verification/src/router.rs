//! The dispatch router: which dispatcher gets a ticket, and which tickets
//! wait for one.
//!
//! The router keeps the registrations of the connected dispatchers, in the
//! order in which they were made, and the tickets that found no dispatcher,
//! in the order in which they came. A ticket for a road with a registered
//! dispatcher goes to the one that registered first for that road. A
//! dispatcher that registers for a road gets what waits for that road, oldest
//! first.

use vstd::prelude::*;
use crate::message::{seq_view, Ticket, TicketView};

verus! {

/// A dispatcher's entry for one road.
#[derive(Debug, Clone, Copy, PartialEq, Eq)]
pub struct Registration {
    pub dispatcher: u64,
    pub road: u16,
}

/// A ticket on its way to a dispatcher.
#[derive(Debug, Clone, PartialEq, Eq)]
pub struct Delivery {
    pub dispatcher: u64,
    pub ticket: Ticket,
}

/// The mathematical value of a [`Delivery`].
pub struct DeliveryView {
    pub dispatcher: u64,
    pub ticket: TicketView,
}

impl View for Delivery {
    type V = DeliveryView;

    open spec fn view(&self) -> DeliveryView {
        DeliveryView { dispatcher: self.dispatcher, ticket: self.ticket@ }
    }
}

/// The state of a router: the registrations, oldest first, and the tickets
/// that wait, oldest first.
pub struct RouterView {
    pub live: Seq<Registration>,
    pub pending: Seq<TicketView>,
}

/// What a router makes of a ticket: its state afterwards, and the delivery,
/// if the ticket's road has a dispatcher.
pub struct Routed {
    pub router: RouterView,
    pub delivery: Option<DeliveryView>,
}

/// What a router makes of a registration: its state afterwards, and the
/// tickets that go to the new dispatcher.
pub struct Registered {
    pub router: RouterView,
    pub tickets: Seq<TicketView>,
}

/// The tickets for `road`.
pub open spec fn on_road(road: u16) -> spec_fn(TicketView) -> bool {
    |ticket: TicketView| ticket.road == road
}

/// The tickets for other roads than `road`.
pub open spec fn off_road(road: u16) -> spec_fn(TicketView) -> bool {
    |ticket: TicketView| ticket.road != road
}

/// The registrations of other dispatchers than `dispatcher`.
pub open spec fn not_of(dispatcher: u64) -> spec_fn(Registration) -> bool {
    |registration: Registration| registration.dispatcher != dispatcher
}

/// The dispatcher that registered first for `road`, among `live`.
pub open spec fn first_for(live: Seq<Registration>, road: u16) -> Option<u64>
    decreases live.len(),
{
    if live.len() == 0 {
        None
    } else {
        match first_for(live.drop_last(), road) {
            Some(dispatcher) => Some(dispatcher),
            None => if live.last().road == road {
                Some(live.last().dispatcher)
            } else {
                None
            },
        }
    }
}

impl RouterView {
    /// No ticket waits for a road that has a dispatcher.
    pub open spec fn wf(self) -> bool {
        forall|i: int, j: int|
            0 <= i < self.pending.len() && 0 <= j < self.live.len() ==> (
            #[trigger] self.pending[i]).road != (#[trigger] self.live[j]).road
    }

    /// The tickets that wait for `road`, oldest first.
    pub open spec fn queue(self, road: u16) -> Seq<TicketView> {
        self.pending.filter(on_road(road))
    }

    /// A ticket goes to the dispatcher that registered first for its road; if
    /// there is none, it waits behind the tickets that wait already.
    pub open spec fn route(self, ticket: TicketView) -> Routed {
        match first_for(self.live, ticket.road) {
            Some(dispatcher) => Routed {
                router: self,
                delivery: Some(DeliveryView { dispatcher, ticket }),
            },
            None => Routed {
                router: RouterView { live: self.live, pending: self.pending.push(ticket) },
                delivery: None,
            },
        }
    }

    /// A dispatcher registers for one road: it gets the tickets that wait for
    /// that road, oldest first, and is entered for the road unless it is
    /// entered already.
    pub open spec fn enroll(self, dispatcher: u64, road: u16) -> Registered {
        let registration = Registration { dispatcher, road };
        Registered {
            router: RouterView {
                live: if self.live.contains(registration) {
                    self.live
                } else {
                    self.live.push(registration)
                },
                pending: self.pending.filter(off_road(road)),
            },
            tickets: self.pending.filter(on_road(road)),
        }
    }

    /// A dispatcher registers for a list of roads, one after the other.
    pub open spec fn register(self, dispatcher: u64, roads: Seq<u16>) -> Registered
        decreases roads.len(),
    {
        if roads.len() == 0 {
            Registered { router: self, tickets: Seq::empty() }
        } else {
            let before = self.register(dispatcher, roads.drop_last());
            let last = before.router.enroll(dispatcher, roads.last());
            Registered { router: last.router, tickets: before.tickets + last.tickets }
        }
    }

    /// A dispatcher leaves: its registrations go, the waiting tickets stay.
    pub open spec fn deregister(self, dispatcher: u64) -> RouterView {
        RouterView { live: self.live.filter(not_of(dispatcher)), pending: self.pending }
    }
}

/// `first_for` finds the first registration for a road: if the first `at`
/// registrations are for other roads and the next one is for `road`, its
/// dispatcher is found.
pub proof fn lemma_first_for_found(live: Seq<Registration>, road: u16, at: int)
    requires
        0 <= at < live.len(),
        live[at].road == road,
        forall|k: int| 0 <= k < at ==> (#[trigger] live[k]).road != road,
    ensures
        first_for(live, road) == Some(live[at].dispatcher),
    decreases live.len(),
{
    if at == live.len() - 1 {
        lemma_first_for_none(live.drop_last(), road);
    } else {
        lemma_first_for_found(live.drop_last(), road, at);
    }
}

/// `first_for` finds nothing exactly when no registration is for the road.
pub proof fn lemma_first_for_none(live: Seq<Registration>, road: u16)
    ensures
        first_for(live, road) is None <==> forall|k: int|
            0 <= k < live.len() ==> (#[trigger] live[k]).road != road,
    decreases live.len(),
{
    if live.len() > 0 {
        lemma_first_for_none(live.drop_last(), road);
        if first_for(live, road) is None {
            assert forall|k: int| 0 <= k < live.len() implies (#[trigger] live[k]).road
                != road by {
                if k < live.len() - 1 {
                    assert(live.drop_last()[k] == live[k]);
                }
            }
        }
    }
}

/// Of the tickets for one road, those for another road are none, and those
/// for the same road are all.
pub proof fn lemma_queue_of_queue(tickets: Seq<TicketView>, a: u16, b: u16)
    ensures
        tickets.filter(on_road(a)).filter(on_road(b)) == if a == b {
            tickets.filter(on_road(a))
        } else {
            Seq::empty()
        },
        tickets.filter(off_road(a)).filter(on_road(b)) == if a == b {
            Seq::empty()
        } else {
            tickets.filter(on_road(b))
        },
    decreases tickets.len(),
{
    reveal(Seq::filter);
    if tickets.len() > 0 {
        lemma_queue_of_queue(tickets.drop_last(), a, b);
        let head = tickets.drop_last();
        let last = tickets.last();
        if last.road == a {
            assert(head.filter(on_road(a)).push(last).drop_last() =~= head.filter(on_road(a)));
        } else {
            assert(head.filter(off_road(a)).push(last).drop_last() =~= head.filter(off_road(a)));
        }
    }
}

/// A registration for other roads leaves the queue of a road as it is, and
/// the road's first dispatcher too. A registration that names the road hands
/// over the road's queue, oldest first, and leaves it empty.
pub proof fn lemma_register_serves_queue(
    router: RouterView,
    dispatcher: u64,
    roads: Seq<u16>,
    road: u16,
)
    ensures
        !roads.contains(road) ==> {
            &&& router.register(dispatcher, roads).tickets.filter(on_road(road)) == Seq::<
                TicketView,
            >::empty()
            &&& router.register(dispatcher, roads).router.queue(road) == router.queue(road)
            &&& first_for(router.register(dispatcher, roads).router.live, road) == first_for(
                router.live,
                road,
            )
        },
        roads.contains(road) ==> {
            &&& router.register(dispatcher, roads).tickets.filter(on_road(road)) == router.queue(
                road,
            )
            &&& router.register(dispatcher, roads).router.queue(road) == Seq::<TicketView>::empty()
            &&& first_for(router.register(dispatcher, roads).router.live, road) == match first_for(
                router.live,
                road,
            ) {
                Some(first) => Some(first),
                None => Some(dispatcher),
            }
        },
    decreases roads.len(),
{
    reveal(Seq::filter);
    if roads.len() > 0 {
        let head = roads.drop_last();
        let last = roads.last();
        let before = router.register(dispatcher, head);
        let step = before.router.enroll(dispatcher, last);
        let registration = Registration { dispatcher, road: last };
        lemma_register_serves_queue(router, dispatcher, head, road);
        lemma_queue_of_queue(before.router.pending, last, road);
        Seq::filter_distributes_over_add(before.tickets, step.tickets, on_road(road));
        assert(roads.contains(road) <==> head.contains(road) || last == road) by {
            if roads.contains(road) {
                let k = choose|k: int| 0 <= k < roads.len() && roads[k] == road;
                if k < head.len() {
                    assert(head[k] == road);
                }
            }
        }
        if before.router.live.contains(registration) {
            if last == road {
                lemma_first_for_none(before.router.live, road);
            }
        } else {
            assert(before.router.live.push(registration).drop_last() =~= before.router.live);
        }
    }
}

/// A ticket that arrives while no dispatcher is registered for its road
/// waits. The dispatcher that registers for the road next is handed what
/// waits for the road: the tickets that waited before, in their order, and
/// then this ticket, once. Afterwards nothing waits for the road, and that
/// dispatcher is the one that tickets for the road go to.
pub proof fn lemma_waiting_ticket_reaches_first_registrant(
    router: RouterView,
    ticket: TicketView,
    dispatcher: u64,
    roads: Seq<u16>,
)
    requires
        first_for(router.live, ticket.road) is None,
        roads.contains(ticket.road),
    ensures
        router.route(ticket).delivery is None,
        router.route(ticket).router.queue(ticket.road) == router.queue(ticket.road).push(ticket),
        router.route(ticket).router.register(dispatcher, roads).tickets.filter(
            on_road(ticket.road),
        ) == router.queue(ticket.road).push(ticket),
        router.route(ticket).router.register(dispatcher, roads).router.queue(ticket.road)
            == Seq::<TicketView>::empty(),
        first_for(router.route(ticket).router.register(dispatcher, roads).router.live, ticket.road)
            == Some(dispatcher),
{
    reveal(Seq::filter);
    let waiting = router.route(ticket).router;
    assert(waiting.pending.drop_last() =~= router.pending);
    lemma_register_serves_queue(waiting, dispatcher, roads, ticket.road);
}

/// While a road has no dispatcher, tickets for it queue up in the order of
/// their arrival, and neither a ticket for another road nor a dispatcher that
/// leaves changes the road's queue.
pub proof fn lemma_queue_keeps_order(router: RouterView, ticket: TicketView, road: u16, gone: u64)
    requires
        first_for(router.live, road) is None,
    ensures
        router.route(ticket).router.queue(road) == if ticket.road == road {
            router.queue(road).push(ticket)
        } else {
            router.queue(road)
        },
        first_for(router.route(ticket).router.live, road) is None,
        router.deregister(gone).queue(road) == router.queue(road),
        first_for(router.deregister(gone).live, road) is None,
{
    reveal(Seq::filter);
    let routed = router.route(ticket).router;
    if first_for(router.live, ticket.road) is None {
        assert(routed.pending.drop_last() =~= router.pending);
    }
    lemma_first_for_none(router.live, road);
    lemma_first_for_none(router.deregister(gone).live, road);
    let left = router.deregister(gone).live;
    assert forall|k: int| 0 <= k < left.len() implies (#[trigger] left[k]).road != road by {
        router.live.lemma_filter_contains_rev(not_of(gone), left[k]);
    }
}

/// The registrations and the waiting tickets.
pub struct DispatchRouter {
    live: Vec<Registration>,
    pending: Vec<Ticket>,
}

impl View for DispatchRouter {
    type V = RouterView;

    closed spec fn view(&self) -> RouterView {
        RouterView { live: self.live@, pending: seq_view(self.pending@) }
    }
}

impl DispatchRouter {
    /// A router with no dispatcher and no ticket.
    pub fn new() -> (router: DispatchRouter)
        ensures
            router@.wf(),
            router@.live == Seq::<Registration>::empty(),
            router@.pending == Seq::<TicketView>::empty(),
    {
        DispatchRouter { live: Vec::new(), pending: Vec::new() }
    }

    /// The registrations, oldest first.
    pub fn registrations(&self) -> (live: &Vec<Registration>)
        ensures
            live@ == self@.live,
    {
        &self.live
    }

    /// The tickets that wait for a dispatcher, oldest first.
    pub fn waiting(&self) -> (pending: &Vec<Ticket>)
        ensures
            seq_view(pending@) == self@.pending,
    {
        &self.pending
    }

    /// The dispatcher that registered first for `road`, if there is one.
    pub fn dispatcher_for(&self, road: u16) -> (dispatcher: Option<u64>)
        ensures
            dispatcher == first_for(self@.live, road),
    {
        let mut i: usize = 0;
        while i < self.live.len()
            invariant
                i <= self.live.len(),
                forall|k: int| 0 <= k < i ==> (#[trigger] self.live@[k]).road != road,
            decreases self.live.len() - i,
        {
            if self.live[i].road == road {
                proof {
                    lemma_first_for_found(self.live@, road, i as int);
                }
                return Some(self.live[i].dispatcher);
            }
            i += 1;
        }
        proof {
            lemma_first_for_none(self.live@, road);
        }
        None
    }

    /// Takes a ticket: it is handed back for delivery to the dispatcher that
    /// registered first for its road, or kept until a dispatcher registers.
    pub fn route(&mut self, ticket: Ticket) -> (delivery: Option<Delivery>)
        requires
            old(self)@.wf(),
        ensures
            final(self)@.wf(),
            final(self)@ == old(self)@.route(ticket@).router,
            crate::message::option_view(delivery) == old(self)@.route(ticket@).delivery,
    {
        match self.dispatcher_for(ticket.road) {
            Some(dispatcher) => Some(Delivery { dispatcher, ticket }),
            None => {
                proof {
                    lemma_first_for_none(self@.live, ticket.road);
                }
                let ghost waiting = self@.pending;
                self.pending.push(ticket);
                assert(self@.pending =~= waiting.push(ticket@));
                None
            },
        }
    }

    /// Tells whether `registration` is among the registrations.
    pub fn is_registered(&self, registration: Registration) -> (registered: bool)
        ensures
            registered == self@.live.contains(registration),
    {
        let mut i: usize = 0;
        while i < self.live.len()
            invariant
                i <= self.live.len(),
                forall|k: int| 0 <= k < i ==> self.live@[k] != registration,
            decreases self.live.len() - i,
        {
            let entry = self.live[i];
            if entry.dispatcher == registration.dispatcher && entry.road == registration.road {
                return true;
            }
            i += 1;
        }
        false
    }

    /// Registers a dispatcher for one road, and returns the tickets that
    /// waited for that road, oldest first.
    pub fn enroll(&mut self, dispatcher: u64, road: u16) -> (tickets: Vec<Ticket>)
        requires
            old(self)@.wf(),
        ensures
            final(self)@.wf(),
            final(self)@ == old(self)@.enroll(dispatcher, road).router,
            seq_view(tickets@) == old(self)@.enroll(dispatcher, road).tickets,
    {
        let ghost before = self@;
        let mut waiting: Vec<Ticket> = Vec::new();
        std::mem::swap(&mut self.pending, &mut waiting);
        let mut tickets: Vec<Ticket> = Vec::new();
        let mut kept: Vec<Ticket> = Vec::new();
        let ghost all = seq_view(waiting@);
        for ticket in it: waiting
            invariant
                it.seq() == waiting@,
                all == seq_view(waiting@),
                seq_view(tickets@) == all.take(it.index()).filter(on_road(road)),
                seq_view(kept@) == all.take(it.index()).filter(off_road(road)),
        {
            proof {
                reveal(Seq::filter);
            }
            assert(all.take(it.index() + 1).drop_last() =~= all.take(it.index()));
            if ticket.road == road {
                tickets.push(ticket);
            } else {
                kept.push(ticket);
            }
        }
        assert(all.take(all.len() as int) =~= all);
        self.pending = kept;
        let registration = Registration { dispatcher, road };
        if !self.is_registered(registration) {
            self.live.push(registration);
        }
        proof {
            let after = self@;
            assert forall|i: int, j: int|
                0 <= i < after.pending.len() && 0 <= j < after.live.len() implies (
            #[trigger] after.pending[i]).road != (#[trigger] after.live[j]).road by {
                before.pending.lemma_filter_pred(off_road(road), i);
                before.pending.lemma_filter_contains_rev(off_road(road), after.pending[i]);
                if after.live[j] != registration {
                    assert(before.live.contains(after.live[j]));
                }
            }
        }
        tickets
    }

    /// Registers a dispatcher for `roads`, one after the other, and returns
    /// the tickets that waited for them: those of the first road first, and
    /// for each road the oldest first.
    pub fn register(&mut self, dispatcher: u64, roads: &Vec<u16>) -> (tickets: Vec<Ticket>)
        requires
            old(self)@.wf(),
        ensures
            final(self)@.wf(),
            final(self)@ == old(self)@.register(dispatcher, roads@).router,
            seq_view(tickets@) == old(self)@.register(dispatcher, roads@).tickets,
    {
        let ghost before = self@;
        let mut tickets: Vec<Ticket> = Vec::new();
        let mut i: usize = 0;
        while i < roads.len()
            invariant
                i <= roads.len(),
                self@.wf(),
                self@ == before.register(dispatcher, roads@.take(i as int)).router,
                seq_view(tickets@) == before.register(dispatcher, roads@.take(i as int)).tickets,
            decreases roads.len() - i,
        {
            assert(roads@.take(i + 1).drop_last() =~= roads@.take(i as int));
            let mut more = self.enroll(dispatcher, roads[i]);
            tickets.append(&mut more);
            i += 1;
        }
        assert(roads@.take(roads.len() as int) =~= roads@);
        tickets
    }

    /// Removes every registration of a dispatcher. The tickets that wait are
    /// not touched.
    pub fn deregister(&mut self, dispatcher: u64)
        requires
            old(self)@.wf(),
        ensures
            final(self)@.wf(),
            final(self)@ == old(self)@.deregister(dispatcher),
    {
        let ghost before = self@;
        let mut kept: Vec<Registration> = Vec::new();
        let mut i: usize = 0;
        while i < self.live.len()
            invariant
                i <= self.live.len(),
                self@ == before,
                kept@ == self.live@.take(i as int).filter(not_of(dispatcher)),
            decreases self.live.len() - i,
        {
            proof {
                reveal(Seq::filter);
            }
            assert(self.live@.take(i + 1).drop_last() =~= self.live@.take(i as int));
            if self.live[i].dispatcher != dispatcher {
                kept.push(self.live[i]);
            }
            i += 1;
        }
        assert(self.live@.take(self.live.len() as int) =~= self.live@);
        self.live = kept;
        proof {
            let after = self@;
            assert forall|i: int, j: int|
                0 <= i < after.pending.len() && 0 <= j < after.live.len() implies (
            #[trigger] after.pending[i]).road != (#[trigger] after.live[j]).road by {
                before.live.lemma_filter_contains_rev(not_of(dispatcher), after.live[j]);
                let k = choose|k: int| 0 <= k < before.live.len() && before.live[k] == after.live[j];
                assert(before.pending[i].road != before.live[k].road);
            }
        }
    }
}

} // verus!
