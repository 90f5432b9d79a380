//! The ticket engine.
//!
//! One method per command. Every method validates its inputs against the
//! current state, applies at most one atomic state change, and returns
//! either a success outcome carrying the resulting record or a typed
//! rejection — in which case the state is left exactly as it was. Each
//! contract says that the method refines the corresponding transition
//! function of [`crate::model`].
//!
//! The engine authenticates nothing: it expects an external dispatcher
//! to deliver already-authenticated commands one at a time, in a single
//! global order.

use vstd::prelude::*;
use crate::types::{
    AantalTickets, Error, Event, Evenement, EvenementId, KlantId, MaxPrijs, Naam, Prijs, Ticket,
};
use crate::types::outcome_view;
use crate::model::{
    PalletV, initial, spec_beschikbaarheid, spec_buy, spec_create, spec_get_beschikbaarheid,
    spec_get_evenement, spec_get_ticket, spec_scan, spec_sell, spec_set_paid,
};
use crate::store::{Evenementen, Tickets};

verus! {

/// The engine, owning the state store exclusively: the `evenementen`
/// table and the `tickets` table.
pub struct Pallet {
    evenementen: Evenementen,
    tickets: Tickets,
}

impl View for Pallet {
    type V = PalletV;

    closed spec fn view(&self) -> PalletV {
        PalletV { evenementen: self.evenementen@, tickets: self.tickets@ }
    }
}

impl Pallet {
    /// Representation invariant of the two tables; `new` establishes it
    /// and every command preserves it.
    pub closed spec fn inv(&self) -> bool {
        self.evenementen.inv() && self.tickets.inv()
    }

    /// A fresh ledger: no events, no tickets.
    pub fn new() -> (r: Pallet)
        ensures
            r.inv(),
            r@ == initial(),
    {
        Pallet { evenementen: Evenementen::new(), tickets: Tickets::new() }
    }

    /// Registers an event with a face price, an explicit resale ceiling
    /// and a fixed capacity. Nothing is checked against an existing id:
    /// a second creation under the same id overwrites the record. Always
    /// succeeds; the outcome carries the stored record.
    pub fn create_evenement(
        &mut self,
        prijs: Prijs,
        max_prijs: MaxPrijs,
        naam: Naam,
        id: EvenementId,
        aantal_tickets: AantalTickets,
    ) -> (r: Result<Event, Error>)
        requires
            old(self).inv(),
        ensures
            final(self).inv(),
            final(self)@ == spec_create(old(self)@, prijs, max_prijs, naam@, id, aantal_tickets).0,
            outcome_view(r) == spec_create(
                old(self)@,
                prijs,
                max_prijs,
                naam@,
                id,
                aantal_tickets,
            ).1,
    {
        let naam_uit = naam.clone();
        proof {
            assert forall|i: int| 0 <= i < naam_uit@.len() implies naam_uit@[i] == naam@[i] by {
                assert(vstd::pervasive::cloned::<u8>(naam@[i], naam_uit@[i]));
            }
            assert(naam_uit@ =~= naam@);
        }
        let evenement = Evenement { id, naam, prijs, max_prijs, aantal_tickets };
        self.evenementen.put(id, evenement);
        Ok(
            Event::EvenementAangemaakt(
                Evenement { id, naam: naam_uit, prijs, max_prijs, aantal_tickets },
            ),
        )
    }

    /// Reads the stored event record; an id with no record is rejected
    /// `EventNotFound`. Reads change no state.
    pub fn get_evenement(&self, id: EvenementId) -> (r: Result<Event, Error>)
        requires
            self.inv(),
        ensures
            outcome_view(r) == spec_get_evenement(self@, id),
    {
        match self.evenementen.get(id) {
            Some(ev) => {
                let naam = ev.naam.clone();
                proof {
                    assert forall|i: int| 0 <= i < naam@.len() implies naam@[i] == ev.naam@[i] by {
                        assert(vstd::pervasive::cloned::<u8>(ev.naam@[i], naam@[i]));
                    }
                    assert(naam@ =~= ev.naam@);
                }
                Ok(
                    Event::Evenement(
                        Evenement {
                            id: ev.id,
                            naam,
                            prijs: ev.prijs,
                            max_prijs: ev.max_prijs,
                            aantal_tickets: ev.aantal_tickets,
                        },
                    ),
                )
            },
            None => Err(Error::EventNotFound),
        }
    }

    /// The availability of an existing event; an id with no record is
    /// rejected `EventNotFound`. Reads change no state.
    pub fn get_evenement_beschikbaarheid(&self, id: EvenementId) -> (r: Result<Event, Error>)
        requires
            self.inv(),
        ensures
            outcome_view(r) == spec_get_beschikbaarheid(self@, id),
    {
        if !self.evenementen.contains(id) {
            return Err(Error::EventNotFound);
        }
        let beschikbaarheid = self.get_beschikbaarheid(id);
        Ok(Event::Beschikbaarheid(beschikbaarheid))
    }

    /// Availability: the event's capacity minus the number of issued
    /// ticket slots under its prefix, counted by a scan over all ticket
    /// keys — always derived from ground truth, never cached. An absent
    /// event counts as capacity zero, and a capacity undercut by an
    /// overwritten event record yields zero rather than wrapping.
    pub fn get_beschikbaarheid(&self, id: EvenementId) -> (r: u128)
        requires
            self.inv(),
        ensures
            r == spec_beschikbaarheid(self@, id),
    {
        let aantal = match self.evenementen.get(id) {
            Some(ev) => ev.aantal_tickets,
            None => 0,
        };
        let count = self.tickets.count_with_prefix(id);
        if (count as u128) <= aantal {
            aantal - (count as u128)
        } else {
            0
        }
    }

    /// Issues a ticket at the slot `(evenement_id, klant_id)`: the event
    /// must exist and at least one slot must be available. The new
    /// ticket copies the event's face price and resale ceiling and
    /// starts unpaid and unscanned.
    pub fn buy_ticket(&mut self, evenement_id: EvenementId, klant_id: KlantId) -> (r: Result<
        Event,
        Error,
    >)
        requires
            old(self).inv(),
        ensures
            final(self).inv(),
            final(self)@ == spec_buy(old(self)@, evenement_id, klant_id).0,
            outcome_view(r) == spec_buy(old(self)@, evenement_id, klant_id).1,
    {
        let (prijs, max_prijs) = match self.evenementen.get(evenement_id) {
            Some(ev) => (ev.prijs, ev.max_prijs),
            None => {
                return Err(Error::EventNotFound);
            },
        };
        let beschikbaarheid = self.get_beschikbaarheid(evenement_id);
        if beschikbaarheid < 1 {
            return Err(Error::NoTicketsAvailable);
        }
        let ticket = Ticket { prijs, is_betaald: false, is_gescand: false, max_prijs };
        self.tickets.put(evenement_id, klant_id, ticket);
        Ok(Event::TicketAangemaakt(ticket))
    }

    /// Overwrites the payment flag of the ticket at the slot. A slot
    /// that holds no ticket is rejected `TicketNotFound`, never filled:
    /// tickets come only from `buy_ticket`, so the capacity bound cannot
    /// be bypassed here.
    pub fn set_paid_status(
        &mut self,
        evenement_id: EvenementId,
        klant_id: KlantId,
        is_betaald: bool,
    ) -> (r: Result<Event, Error>)
        requires
            old(self).inv(),
        ensures
            final(self).inv(),
            final(self)@ == spec_set_paid(old(self)@, evenement_id, klant_id, is_betaald).0,
            outcome_view(r) == spec_set_paid(old(self)@, evenement_id, klant_id, is_betaald).1,
    {
        let t = match self.tickets.get(evenement_id, klant_id) {
            Some(t) => t,
            None => {
                return Err(Error::TicketNotFound);
            },
        };
        let nieuw = Ticket {
            prijs: t.prijs,
            is_betaald,
            is_gescand: t.is_gescand,
            max_prijs: t.max_prijs,
        };
        self.tickets.put(evenement_id, klant_id, nieuw);
        Ok(Event::Ticket(nieuw))
    }

    /// The ticket stored at the slot, or the all-zero ticket when the
    /// slot holds none. Never rejects; reads change no state.
    pub fn get_ticket(&self, evenement_id: EvenementId, klant_id: KlantId) -> (r: Ticket)
        requires
            self.inv(),
        ensures
            r == spec_get_ticket(self@, evenement_id, klant_id),
    {
        self.tickets.get_or_default(evenement_id, klant_id, Ticket::default())
    }

    /// Validates a ticket for entry. The slot must hold a ticket, the
    /// ticket must be paid — checked first, so an unpaid ticket is
    /// rejected `TicketNotPaid` whatever its other fields — and must not
    /// have been scanned before; scanning is one-way.
    pub fn scan_ticket(&mut self, evenement_id: EvenementId, klant_id: KlantId) -> (r: Result<
        Event,
        Error,
    >)
        requires
            old(self).inv(),
        ensures
            final(self).inv(),
            final(self)@ == spec_scan(old(self)@, evenement_id, klant_id).0,
            outcome_view(r) == spec_scan(old(self)@, evenement_id, klant_id).1,
    {
        let t = match self.tickets.get(evenement_id, klant_id) {
            Some(t) => t,
            None => {
                return Err(Error::TicketNotFound);
            },
        };
        if !t.is_betaald {
            return Err(Error::TicketNotPaid);
        }
        if t.is_gescand {
            return Err(Error::TicketAlreadyScanned);
        }
        let nieuw = Ticket {
            prijs: t.prijs,
            is_betaald: t.is_betaald,
            is_gescand: true,
            max_prijs: t.max_prijs,
        };
        self.tickets.put(evenement_id, klant_id, nieuw);
        Ok(Event::Ticket(nieuw))
    }

    /// Hands the seller's ticket to the buyer. The event and the
    /// seller's ticket must exist, the ticket must be paid — checked
    /// before the scan flag — and not scanned, and the asking price may
    /// not exceed the ticket's own resale ceiling. The two slots' stored
    /// values are exchanged, absence included: the buyer's slot receives
    /// the ticket, the seller's slot receives whatever the buyer's slot
    /// held before — nothing, if it was vacant. The outcome carries the
    /// ticket as the buyer now holds it.
    pub fn sell_ticket(
        &mut self,
        evenement_id: EvenementId,
        klant_oud: KlantId,
        klant_nieuw: KlantId,
        prijs: Prijs,
    ) -> (r: Result<Event, Error>)
        requires
            old(self).inv(),
        ensures
            final(self).inv(),
            final(self)@ == spec_sell(old(self)@, evenement_id, klant_oud, klant_nieuw, prijs).0,
            outcome_view(r) == spec_sell(
                old(self)@,
                evenement_id,
                klant_oud,
                klant_nieuw,
                prijs,
            ).1,
    {
        if !self.evenementen.contains(evenement_id) {
            return Err(Error::EventNotFound);
        }
        let t = match self.tickets.get(evenement_id, klant_oud) {
            Some(t) => t,
            None => {
                return Err(Error::TicketNotFound);
            },
        };
        if !t.is_betaald {
            return Err(Error::TicketNotPaid);
        }
        if t.is_gescand {
            return Err(Error::TicketAlreadyScanned);
        }
        if prijs > t.max_prijs {
            return Err(Error::ResellPriceTooHigh);
        }
        self.tickets.swap(evenement_id, klant_oud, evenement_id, klant_nieuw);
        Ok(Event::Ticket(t))
    }
}

} // verus!
