//! The ticket engine: it keeps every sighting, compares each new sighting
//! with all earlier ones of the same plate on the same road, and issues a
//! ticket for a pair that shows speeding, unless a ticket already issued for
//! that plate covers one of the days of the pair.

use vstd::prelude::*;
use crate::message::{seq_view, Sighting, SightingView, Ticket, TicketView};
use crate::speed::{
    average_speed, day_key, day_of, gap, hundredths, is_speeding, speeding_between,
};

verus! {

/// A speed in hundredths, held to what a ticket can carry.
pub open spec fn capped(speed: nat) -> u16 {
    if speed > u16::MAX {
        u16::MAX
    } else {
        speed as u16
    }
}

/// True when the days from the first to the second timestamp of one ticket
/// and those of the other have a day in common.
pub open spec fn days_overlap(a: TicketView, b: TicketView) -> bool {
    day_of(a.timestamp1) <= day_of(b.timestamp2) && day_of(b.timestamp1) <= day_of(a.timestamp2)
}

/// True when a ticket among `issued` is for the plate of `ticket` and shares
/// a day with it.
pub open spec fn clashes(issued: Seq<TicketView>, ticket: TicketView) -> bool {
    exists|i: int|
        0 <= i < issued.len() && (#[trigger] issued[i]).plate == ticket.plate && days_overlap(
            issued[i],
            ticket,
        )
}

/// The ticket that two sightings call for, if any: they must be of one plate
/// on one road, at different moments, and show a speed over the limit. The
/// earlier sighting comes first in the ticket, whichever arrived first.
pub open spec fn candidate(prior: SightingView, seen: SightingView, limit: u16) -> Option<
    TicketView,
> {
    if prior.plate == seen.plate && prior.road == seen.road && speeding_between(
        prior.mile,
        prior.timestamp,
        seen.mile,
        seen.timestamp,
        limit,
    ) {
        let first = if prior.timestamp < seen.timestamp {
            prior
        } else {
            seen
        };
        let second = if prior.timestamp < seen.timestamp {
            seen
        } else {
            prior
        };
        Some(
            TicketView {
                plate: seen.plate,
                road: seen.road,
                mile1: first.mile,
                timestamp1: first.timestamp,
                mile2: second.mile,
                timestamp2: second.timestamp,
                speed: capped(
                    hundredths(
                        gap(prior.mile as int, seen.mile as int),
                        gap(prior.timestamp as int, seen.timestamp as int),
                    ),
                ),
            },
        )
    } else {
        None
    }
}

/// The tickets that a new sighting brings, given the sightings before it, in
/// the order of their arrival, and the tickets issued so far. Each earlier
/// sighting is compared with the new one; a ticket is issued unless it
/// clashes with one issued before, in an earlier call or for an earlier
/// sighting of this one.
pub open spec fn new_tickets(
    history: Seq<SightingView>,
    issued: Seq<TicketView>,
    seen: SightingView,
    limit: u16,
) -> Seq<TicketView>
    decreases history.len(),
{
    if history.len() == 0 {
        Seq::empty()
    } else {
        let earlier = new_tickets(history.drop_last(), issued, seen, limit);
        match candidate(history.last(), seen, limit) {
            Some(ticket) => if clashes(issued + earlier, ticket) {
                earlier
            } else {
                earlier.push(ticket)
            },
            None => earlier,
        }
    }
}

/// No two tickets for one plate share a day.
pub open spec fn no_shared_day(issued: Seq<TicketView>) -> bool {
    forall|i: int, j: int|
        0 <= i < j < issued.len() && (#[trigger] issued[i]).plate == (#[trigger] issued[j]).plate
            ==> !days_overlap(issued[i], issued[j])
}

/// The ticket for two sightings is the same whichever of them arrived first.
pub proof fn lemma_candidate_is_symmetric(a: SightingView, b: SightingView, limit: u16)
    ensures
        candidate(a, b, limit) == candidate(b, a, limit),
{
}

/// A ticket for two sightings runs from the earlier to the later one, names
/// the mile of each, and carries their average speed: the distance between
/// the miles over the time between the timestamps, in hundredths of a mile
/// per hour, as far as a ticket can carry it.
pub proof fn lemma_candidate_carries_average_speed(
    prior: SightingView,
    seen: SightingView,
    limit: u16,
)
    requires
        candidate(prior, seen, limit) is Some,
    ensures
        ({
            let ticket = candidate(prior, seen, limit)->0;
            &&& ticket.timestamp1 < ticket.timestamp2
            &&& (ticket.mile1 == prior.mile && ticket.timestamp1 == prior.timestamp && ticket.mile2
                == seen.mile && ticket.timestamp2 == seen.timestamp) || (ticket.mile1 == seen.mile
                && ticket.timestamp1 == seen.timestamp && ticket.mile2 == prior.mile
                && ticket.timestamp2 == prior.timestamp)
            &&& ticket.speed == capped(
                hundredths(
                    gap(ticket.mile1 as int, ticket.mile2 as int),
                    (ticket.timestamp2 - ticket.timestamp1) as nat,
                ),
            )
            &&& ticket.speed > 100 * limit || ticket.speed == u16::MAX
        }),
{
    let miles = gap(prior.mile as int, seen.mile as int);
    let seconds = gap(prior.timestamp as int, seen.timestamp as int);
    crate::speed::lemma_speeding_is_reported_above_limit(miles, seconds, limit as nat);
}

/// No plate is ticketed twice for one day: if no two of the tickets issued
/// so far for one plate share a day, the same holds once the tickets that a
/// new sighting brings are added, whatever the sighting and on whatever road.
pub proof fn lemma_no_day_is_ticketed_twice(
    history: Seq<SightingView>,
    issued: Seq<TicketView>,
    seen: SightingView,
    limit: u16,
)
    requires
        no_shared_day(issued),
    ensures
        no_shared_day(issued + new_tickets(history, issued, seen, limit)),
    decreases history.len(),
{
    if history.len() > 0 {
        lemma_no_day_is_ticketed_twice(history.drop_last(), issued, seen, limit);
        let earlier = new_tickets(history.drop_last(), issued, seen, limit);
        let ticket = candidate(history.last(), seen, limit);
        if ticket is Some && !clashes(issued + earlier, ticket->0) {
            let ledger = (issued + earlier).push(ticket->0);
            assert forall|i: int, j: int|
                0 <= i < j < ledger.len() && (#[trigger] ledger[i]).plate == (
                #[trigger] ledger[j]).plate implies !days_overlap(ledger[i], ledger[j]) by {
                if j < ledger.len() - 1 {
                    assert((issued + earlier)[i].plate == (issued + earlier)[j].plate);
                }
            }
            assert(ledger =~= issued + earlier.push(ticket->0));
        }
    }
}

/// The state of a ticket engine: the sightings it was given, in the order of
/// their arrival, and the tickets it has issued, in the order of issue.
pub struct EngineView {
    pub sightings: Seq<SightingView>,
    pub issued: Seq<TicketView>,
}

/// The sightings taken in and the tickets issued.
pub struct TicketEngine {
    sightings: Vec<Sighting>,
    issued: Vec<Ticket>,
}

impl View for TicketEngine {
    type V = EngineView;

    closed spec fn view(&self) -> EngineView {
        EngineView { sightings: seq_view(self.sightings@), issued: seq_view(self.issued@) }
    }
}

/// The ticket for a pair of sightings that shows speeding.
pub fn candidate_ticket(prior: &Sighting, seen: &Sighting, limit: u16) -> (ticket: Option<Ticket>)
    ensures
        crate::message::option_view(ticket) == candidate(prior@, seen@, limit),
{
    if prior.plate != seen.plate || prior.road != seen.road {
        return None;
    }
    if !is_speeding(prior.mile, prior.timestamp, seen.mile, seen.timestamp, limit) {
        return None;
    }
    let speed = match average_speed(prior.mile, prior.timestamp, seen.mile, seen.timestamp) {
        Some(speed) => speed,
        None => {
            return None;
        },
    };
    let speed: u16 = if speed > 65535 {
        65535
    } else {
        speed as u16
    };
    let ticket = if prior.timestamp < seen.timestamp {
        Ticket {
            plate: seen.plate.clone(),
            road: seen.road,
            mile1: prior.mile,
            timestamp1: prior.timestamp,
            mile2: seen.mile,
            timestamp2: seen.timestamp,
            speed,
        }
    } else {
        Ticket {
            plate: seen.plate.clone(),
            road: seen.road,
            mile1: seen.mile,
            timestamp1: seen.timestamp,
            mile2: prior.mile,
            timestamp2: prior.timestamp,
            speed,
        }
    };
    Some(ticket)
}

/// Tells whether a ticket among `issued` is for the same plate as `ticket`
/// and shares a day with it.
pub fn clashes_with(issued: &Vec<Ticket>, ticket: &Ticket) -> (clash: bool)
    ensures
        clash == clashes(seq_view(issued@), ticket@),
{
    let first = day_key(ticket.timestamp1);
    let last = day_key(ticket.timestamp2);
    let mut i: usize = 0;
    while i < issued.len()
        invariant
            i <= issued.len(),
            first == day_of(ticket.timestamp1),
            last == day_of(ticket.timestamp2),
            forall|k: int|
                0 <= k < i ==> !((#[trigger] seq_view(issued@)[k]).plate == ticket@.plate
                    && days_overlap(seq_view(issued@)[k], ticket@)),
        decreases issued.len() - i,
    {
        let other = &issued[i];
        if other.plate == ticket.plate && day_key(other.timestamp1) <= last && first <= day_key(
            other.timestamp2,
        ) {
            assert(seq_view(issued@)[i as int] == other@);
            return true;
        }
        i += 1;
    }
    false
}

impl TicketEngine {
    /// The engine keeps its promise: no two issued tickets for one plate share
    /// a day.
    pub open spec fn wf(&self) -> bool {
        no_shared_day(self@.issued)
    }

    /// An engine that has seen nothing and issued nothing.
    pub fn new() -> (engine: TicketEngine)
        ensures
            engine.wf(),
            engine@.sightings == Seq::<SightingView>::empty(),
            engine@.issued == Seq::<TicketView>::empty(),
    {
        TicketEngine { sightings: Vec::new(), issued: Vec::new() }
    }

    /// The sightings taken in so far, in the order of their arrival.
    pub fn sightings(&self) -> (sightings: &Vec<Sighting>)
        ensures
            seq_view(sightings@) == self@.sightings,
    {
        &self.sightings
    }

    /// The tickets issued so far, in the order of issue.
    pub fn issued(&self) -> (issued: &Vec<Ticket>)
        ensures
            seq_view(issued@) == self@.issued,
    {
        &self.issued
    }

    /// Takes in a sighting made where the speed limit is `limit`, and returns
    /// the tickets that it brings, in the order of the earlier sightings that
    /// they pair it with.
    pub fn ingest(&mut self, sighting: Sighting, limit: u16) -> (tickets: Vec<Ticket>)
        requires
            old(self).wf(),
        ensures
            final(self).wf(),
            final(self)@.sightings == old(self)@.sightings.push(sighting@),
            final(self)@.issued == old(self)@.issued + seq_view(tickets@),
            seq_view(tickets@) == new_tickets(
                old(self)@.sightings,
                old(self)@.issued,
                sighting@,
                limit,
            ),
    {
        let mut tickets: Vec<Ticket> = Vec::new();
        let ghost history = self@.sightings;
        let ghost before = self@.issued;
        let n = self.sightings.len();
        let mut i: usize = 0;
        while i < n
            invariant
                i <= n,
                n == self.sightings.len(),
                self@.sightings == history,
                no_shared_day(self@.issued),
                self@.issued == before + seq_view(tickets@),
                seq_view(tickets@) == new_tickets(history.take(i as int), before, sighting@, limit),
            decreases n - i,
        {
            let ghost ledger = self@.issued;
            assert(history.take(i + 1).drop_last() =~= history.take(i as int));
            match candidate_ticket(&self.sightings[i], &sighting, limit) {
                Some(ticket) => {
                    if !clashes_with(&self.issued, &ticket) {
                        self.issued.push(ticket.duplicate());
                        tickets.push(ticket);
                        assert(self@.issued =~= ledger.push(ticket@));
                    }
                },
                None => {},
            }
            i += 1;
        }
        assert(history.take(n as int) =~= history);
        self.sightings.push(sighting);
        tickets
    }
}

} // verus!
