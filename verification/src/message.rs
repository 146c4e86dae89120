//! The messages of the speed-enforcement protocol.

use vstd::prelude::*;

verus! {

/// A camera's report of one plate at one moment.
#[derive(Debug, Clone, PartialEq, Eq)]
pub struct Plate {
    pub plate: String,
    pub timestamp: u32,
}

/// The mathematical value of a [`Plate`].
pub struct PlateView {
    pub plate: Seq<char>,
    pub timestamp: u32,
}

impl View for Plate {
    type V = PlateView;

    open spec fn view(&self) -> PlateView {
        PlateView { plate: self.plate@, timestamp: self.timestamp }
    }
}

/// A speeding ticket: the plate was seen at `mile1` at `timestamp1` and at
/// `mile2` at `timestamp2`, and moved at `speed` hundredths of a mile per hour
/// between the two.
#[derive(Debug, Clone, PartialEq, Eq)]
pub struct Ticket {
    pub plate: String,
    pub road: u16,
    pub mile1: u16,
    pub timestamp1: u32,
    pub mile2: u16,
    pub timestamp2: u32,
    pub speed: u16,
}

/// The mathematical value of a [`Ticket`].
pub struct TicketView {
    pub plate: Seq<char>,
    pub road: u16,
    pub mile1: u16,
    pub timestamp1: u32,
    pub mile2: u16,
    pub timestamp2: u32,
    pub speed: u16,
}

impl View for Ticket {
    type V = TicketView;

    open spec fn view(&self) -> TicketView {
        TicketView {
            plate: self.plate@,
            road: self.road,
            mile1: self.mile1,
            timestamp1: self.timestamp1,
            mile2: self.mile2,
            timestamp2: self.timestamp2,
            speed: self.speed,
        }
    }
}

impl Ticket {
    /// A copy of the ticket.
    pub fn duplicate(&self) -> (copy: Ticket)
        ensures
            copy@ == self@,
    {
        Ticket {
            plate: self.plate.clone(),
            road: self.road,
            mile1: self.mile1,
            timestamp1: self.timestamp1,
            mile2: self.mile2,
            timestamp2: self.timestamp2,
            speed: self.speed,
        }
    }
}

/// A client's request for heartbeats every `interval` tenths of a second.
#[derive(Debug, Clone, Copy, PartialEq, Eq)]
pub struct WantHeartbeat {
    pub interval: u32,
}

/// A client's declaration that it is the camera at `mile` of `road`, where
/// the speed limit is `limit` miles per hour.
#[derive(Debug, Clone, Copy, PartialEq, Eq)]
pub struct IAmCamera {
    pub road: u16,
    pub mile: u16,
    pub limit: u16,
}

/// A client's declaration that it is a dispatcher for `roads`.
#[derive(Debug, Clone, PartialEq, Eq)]
pub struct IAmDispatcher {
    pub roads: Vec<u16>,
}

/// The mathematical value of an [`IAmDispatcher`].
pub struct IAmDispatcherView {
    pub roads: Seq<u16>,
}

impl View for IAmDispatcher {
    type V = IAmDispatcherView;

    open spec fn view(&self) -> IAmDispatcherView {
        IAmDispatcherView { roads: self.roads@ }
    }
}

/// One observation of a plate: where and when it was seen.
#[derive(Debug, Clone, PartialEq, Eq)]
pub struct Sighting {
    pub plate: String,
    pub road: u16,
    pub mile: u16,
    pub timestamp: u32,
}

/// The mathematical value of a [`Sighting`].
pub struct SightingView {
    pub plate: Seq<char>,
    pub road: u16,
    pub mile: u16,
    pub timestamp: u32,
}

impl View for Sighting {
    type V = SightingView;

    open spec fn view(&self) -> SightingView {
        SightingView {
            plate: self.plate@,
            road: self.road,
            mile: self.mile,
            timestamp: self.timestamp,
        }
    }
}

/// A message that a client may send.
#[derive(Debug, Clone, PartialEq, Eq)]
pub enum Request {
    IAmCamera(IAmCamera),
    IAmDispatcher(IAmDispatcher),
    WantHeartbeat(WantHeartbeat),
    Plate(Plate),
}

/// The mathematical value of a [`Request`].
pub enum RequestView {
    IAmCamera(IAmCamera),
    IAmDispatcher(IAmDispatcherView),
    WantHeartbeat(WantHeartbeat),
    Plate(PlateView),
}

impl View for Request {
    type V = RequestView;

    open spec fn view(&self) -> RequestView {
        match *self {
            Request::IAmCamera(camera) => RequestView::IAmCamera(camera),
            Request::IAmDispatcher(dispatcher) => RequestView::IAmDispatcher(dispatcher@),
            Request::WantHeartbeat(heartbeat) => RequestView::WantHeartbeat(heartbeat),
            Request::Plate(plate) => RequestView::Plate(plate@),
        }
    }
}

/// The value of an optional item: the view of what it holds, if anything.
pub open spec fn option_view<T: View>(item: Option<T>) -> Option<T::V> {
    match item {
        Some(inner) => Some(inner@),
        None => None,
    }
}

/// The values of a sequence of items, one by one.
pub open spec fn seq_view<T: View>(items: Seq<T>) -> Seq<T::V> {
    items.map_values(|item: T| item@)
}

} // verus!
