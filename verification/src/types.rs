//! Records, outcomes and rejections of the ticket ledger.

use vstd::prelude::*;

verus! {

/// Identifier of an event, assigned by its creator.
pub type EvenementId = u128;

/// Face price of one ticket.
pub type Prijs = u32;

/// Ceiling on the price a ticket may be resold for.
pub type MaxPrijs = u32;

/// Display label of an event: an arbitrary byte sequence, possibly empty.
pub type Naam = Vec<u8>;

/// Identifier of a customer (a ticket holder).
pub type KlantId = u128;

/// Total number of tickets ever issuable for an event.
pub type AantalTickets = u128;

/// An event record: a ticketable happening with a fixed face price,
/// resale ceiling and capacity. Created once, never mutated afterwards.
#[derive(Debug)]
pub struct Evenement {
    /// Identifier, chosen by the creator; uniqueness is the creator's
    /// responsibility (a second creation under the same id overwrites).
    pub id: EvenementId,
    /// Display label; may be empty.
    pub naam: Naam,
    /// Face value of one ticket, copied onto each ticket at purchase.
    pub prijs: Prijs,
    /// Absolute ceiling on resale, set at creation independently of the
    /// face price, and copied onto each ticket at purchase.
    pub max_prijs: MaxPrijs,
    /// Capacity: fixed at creation.
    pub aantal_tickets: AantalTickets,
}

/// Spec-level view of an [`Evenement`]: the byte label as a `Seq`.
pub ghost struct EvenementV {
    pub id: EvenementId,
    pub naam: Seq<u8>,
    pub prijs: Prijs,
    pub max_prijs: MaxPrijs,
    pub aantal_tickets: AantalTickets,
}

impl View for Evenement {
    type V = EvenementV;

    open spec fn view(&self) -> EvenementV {
        EvenementV {
            id: self.id,
            naam: self.naam@,
            prijs: self.prijs,
            max_prijs: self.max_prijs,
            aantal_tickets: self.aantal_tickets,
        }
    }
}

/// One holder's claim against one event. Keyed in the store by the slot
/// `(event id, holder id)`: at most one ticket per holder per event.
#[derive(Clone, Copy, PartialEq, Eq, Structural, Debug)]
pub struct Ticket {
    /// Face price, copied from the event at purchase time.
    pub prijs: Prijs,
    /// Payment confirmation flag; purchases start unpaid.
    pub is_betaald: bool,
    /// Check-in flag; moves from `false` to `true` exactly once.
    pub is_gescand: bool,
    /// Resale ceiling, inherited from the event at purchase time.
    pub max_prijs: MaxPrijs,
}

impl Default for Ticket {
    /// The all-zero ticket, returned by lookups of a slot that holds none.
    fn default() -> (r: Ticket)
        ensures
            r == Ticket::empty(),
    {
        Ticket { prijs: 0, is_betaald: false, is_gescand: false, max_prijs: 0 }
    }
}

impl Ticket {
    /// The all-zero ticket value.
    pub open spec fn empty() -> Ticket {
        Ticket { prijs: 0, is_betaald: false, is_gescand: false, max_prijs: 0 }
    }
}

/// Typed rejections. Every rejection is local and recoverable: the
/// rejected command applies no state change.
#[derive(Clone, Copy, PartialEq, Eq, Structural, Debug)]
pub enum Error {
    /// The referenced event id has no record.
    EventNotFound,
    /// The referenced slot has no issued ticket.
    TicketNotFound,
    /// Derived availability was zero at purchase time.
    NoTicketsAvailable,
    /// Scan or resale was attempted before payment was confirmed.
    TicketNotPaid,
    /// Scan or resale was attempted on an already-validated ticket.
    TicketAlreadyScanned,
    /// The asking price exceeds the ticket's resale ceiling.
    ResellPriceTooHigh,
}

/// Success outcomes: each successful command returns exactly one,
/// carrying the resulting record or derived value.
#[derive(Debug)]
pub enum Event {
    /// An event record was stored.
    EvenementAangemaakt(Evenement),
    /// A ticket was issued.
    TicketAangemaakt(Ticket),
    /// An event record was read.
    Evenement(Evenement),
    /// A ticket was paid, scanned or resold; carries the resulting record.
    Ticket(Ticket),
    /// Availability was computed: capacity minus issued ticket slots.
    Beschikbaarheid(u128),
}

/// Spec-level view of an [`Event`] outcome.
pub ghost enum EventV {
    EvenementAangemaakt(EvenementV),
    TicketAangemaakt(Ticket),
    Evenement(EvenementV),
    Ticket(Ticket),
    Beschikbaarheid(u128),
}

impl View for Event {
    type V = EventV;

    open spec fn view(&self) -> EventV {
        match self {
            Event::EvenementAangemaakt(ev) => EventV::EvenementAangemaakt(ev@),
            Event::TicketAangemaakt(t) => EventV::TicketAangemaakt(*t),
            Event::Evenement(ev) => EventV::Evenement(ev@),
            Event::Ticket(t) => EventV::Ticket(*t),
            Event::Beschikbaarheid(n) => EventV::Beschikbaarheid(*n),
        }
    }
}

/// The view of an outcome: success payloads go to their views, and a
/// rejection stands as it is.
pub open spec fn outcome_view(r: Result<Event, Error>) -> Result<EventV, Error> {
    match r {
        Ok(ev) => Ok(ev@),
        Err(e) => Err(e),
    }
}

} // verus!
