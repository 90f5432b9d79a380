//! The mathematical model of the ledger.
//!
//! The ghost state [`PalletV`] holds the two logical tables as maps; one
//! transition function per command says exactly which state and outcome
//! the command produces. The executable engine in [`crate::pallet`] is
//! proved to refine these functions, and the global laws in
//! [`crate::laws`] are proved of them.

use vstd::prelude::*;
use crate::types::{EventV, EvenementV, Error, Ticket};

verus! {

/// The ghost state: the `evenementen` table keyed by event id, and the
/// `tickets` table keyed by the slot `(event id, holder id)`.
pub ghost struct PalletV {
    pub evenementen: Map<u128, EvenementV>,
    pub tickets: Map<(u128, u128), Ticket>,
}

/// The state before any command: both tables empty.
pub open spec fn initial() -> PalletV {
    PalletV { evenementen: Map::empty(), tickets: Map::empty() }
}

/// The slots issued for event `id`: the ticket keys under the event's
/// prefix.
pub open spec fn issued(tickets: Map<(u128, u128), Ticket>, id: u128) -> Set<(u128, u128)> {
    tickets.dom().filter(|k: (u128, u128)| k.0 == id)
}

/// Availability of event `id`: its capacity minus the number of issued
/// ticket slots, and zero both for an absent event and in the degenerate
/// case where more slots stand issued than the event's recorded capacity
/// admits (possible only after an event was overwritten with a smaller
/// capacity; see [`wf`]).
pub open spec fn spec_beschikbaarheid(s: PalletV, id: u128) -> u128 {
    let cap = if s.evenementen.dom().contains(id) {
        s.evenementen[id].aantal_tickets
    } else {
        0
    };
    if issued(s.tickets, id).len() <= cap {
        (cap - issued(s.tickets, id).len()) as u128
    } else {
        0
    }
}

/// The values stored at keys `a` and `b` exchanged, absence included: if
/// only one key held a value, that value ends at the other key and the
/// first key is left vacant.
pub open spec fn map_swap<K, V>(m: Map<K, V>, a: K, b: K) -> Map<K, V> {
    let cleared = m.remove(a).remove(b);
    let with_a = if m.dom().contains(b) {
        cleared.insert(a, m[b])
    } else {
        cleared
    };
    if m.dom().contains(a) {
        with_a.insert(b, m[a])
    } else {
        with_a
    }
}

/// `CreateEvenement`: stores the record under `id`, overwriting any
/// earlier record, and always succeeds.
pub open spec fn spec_create(
    s: PalletV,
    prijs: u32,
    max_prijs: u32,
    naam: Seq<u8>,
    id: u128,
    aantal_tickets: u128,
) -> (PalletV, Result<EventV, Error>) {
    let ev = EvenementV { id, naam, prijs, max_prijs, aantal_tickets };
    (
        PalletV { evenementen: s.evenementen.insert(id, ev), tickets: s.tickets },
        Ok(EventV::EvenementAangemaakt(ev)),
    )
}

/// `GetEvenement`: reads the stored record, or rejects when the id has
/// none. Reads change no state.
pub open spec fn spec_get_evenement(s: PalletV, id: u128) -> Result<EventV, Error> {
    if s.evenementen.dom().contains(id) {
        Ok(EventV::Evenement(s.evenementen[id]))
    } else {
        Err(Error::EventNotFound)
    }
}

/// `GetAvailability`: the derived availability of an existing event, or
/// a rejection when the id has no record.
pub open spec fn spec_get_beschikbaarheid(s: PalletV, id: u128) -> Result<EventV, Error> {
    if s.evenementen.dom().contains(id) {
        Ok(EventV::Beschikbaarheid(spec_beschikbaarheid(s, id)))
    } else {
        Err(Error::EventNotFound)
    }
}

/// `BuyTicket`: requires the event to exist and at least one slot to be
/// available; issues an unpaid, unscanned ticket carrying the event's
/// face price and resale ceiling at the slot `(evenement_id, klant_id)`.
pub open spec fn spec_buy(s: PalletV, evenement_id: u128, klant_id: u128) -> (
    PalletV,
    Result<EventV, Error>,
) {
    if !s.evenementen.dom().contains(evenement_id) {
        (s, Err(Error::EventNotFound))
    } else if spec_beschikbaarheid(s, evenement_id) < 1 {
        (s, Err(Error::NoTicketsAvailable))
    } else {
        let ev = s.evenementen[evenement_id];
        let t = Ticket {
            prijs: ev.prijs,
            is_betaald: false,
            is_gescand: false,
            max_prijs: ev.max_prijs,
        };
        (
            PalletV {
                evenementen: s.evenementen,
                tickets: s.tickets.insert((evenement_id, klant_id), t),
            },
            Ok(EventV::TicketAangemaakt(t)),
        )
    }
}

/// `SetPaidStatus`: overwrites the payment flag of an issued ticket. A
/// slot that holds no ticket is rejected, never filled: tickets come
/// only from `BuyTicket`.
pub open spec fn spec_set_paid(s: PalletV, evenement_id: u128, klant_id: u128, is_betaald: bool) -> (
    PalletV,
    Result<EventV, Error>,
) {
    let key = (evenement_id, klant_id);
    if !s.tickets.dom().contains(key) {
        (s, Err(Error::TicketNotFound))
    } else {
        let t = Ticket { is_betaald, ..s.tickets[key] };
        (
            PalletV { evenementen: s.evenementen, tickets: s.tickets.insert(key, t) },
            Ok(EventV::Ticket(t)),
        )
    }
}

/// `GetTicket`: the ticket stored at the slot, or the all-zero ticket
/// when the slot holds none. Never rejects; reads change no state.
pub open spec fn spec_get_ticket(s: PalletV, evenement_id: u128, klant_id: u128) -> Ticket {
    let key = (evenement_id, klant_id);
    if s.tickets.dom().contains(key) {
        s.tickets[key]
    } else {
        Ticket::empty()
    }
}

/// `ScanTicket`: validates a paid, not yet scanned ticket for entry.
/// Payment is checked before the scan flag: an unpaid ticket is rejected
/// `TicketNotPaid` regardless of its other fields.
pub open spec fn spec_scan(s: PalletV, evenement_id: u128, klant_id: u128) -> (
    PalletV,
    Result<EventV, Error>,
) {
    let key = (evenement_id, klant_id);
    if !s.tickets.dom().contains(key) {
        (s, Err(Error::TicketNotFound))
    } else if !s.tickets[key].is_betaald {
        (s, Err(Error::TicketNotPaid))
    } else if s.tickets[key].is_gescand {
        (s, Err(Error::TicketAlreadyScanned))
    } else {
        let t = Ticket { is_gescand: true, ..s.tickets[key] };
        (
            PalletV { evenementen: s.evenementen, tickets: s.tickets.insert(key, t) },
            Ok(EventV::Ticket(t)),
        )
    }
}

/// `SellTicket`: hands the seller's paid, unscanned ticket to the buyer,
/// provided the asking price does not exceed the ticket's own resale
/// ceiling. The two slots' stored values are exchanged, absence
/// included: the buyer's slot receives the ticket, and the seller's slot
/// receives whatever the buyer's slot held before — nothing, if it was
/// vacant. The outcome carries the ticket as the buyer now holds it.
pub open spec fn spec_sell(
    s: PalletV,
    evenement_id: u128,
    klant_oud: u128,
    klant_nieuw: u128,
    prijs: u32,
) -> (PalletV, Result<EventV, Error>) {
    let key_oud = (evenement_id, klant_oud);
    let key_nieuw = (evenement_id, klant_nieuw);
    if !s.evenementen.dom().contains(evenement_id) {
        (s, Err(Error::EventNotFound))
    } else if !s.tickets.dom().contains(key_oud) {
        (s, Err(Error::TicketNotFound))
    } else if !s.tickets[key_oud].is_betaald {
        (s, Err(Error::TicketNotPaid))
    } else if s.tickets[key_oud].is_gescand {
        (s, Err(Error::TicketAlreadyScanned))
    } else if prijs > s.tickets[key_oud].max_prijs {
        (s, Err(Error::ResellPriceTooHigh))
    } else {
        (
            PalletV {
                evenementen: s.evenementen,
                tickets: map_swap(s.tickets, key_oud, key_nieuw),
            },
            Ok(EventV::Ticket(s.tickets[key_oud])),
        )
    }
}

/// One command, as the dispatcher would deliver it: the discriminant and
/// its arguments.
pub ghost enum Command {
    CreateEvenement { prijs: u32, max_prijs: u32, naam: Seq<u8>, id: u128, aantal_tickets: u128 },
    GetEvenement { id: u128 },
    GetBeschikbaarheid { id: u128 },
    BuyTicket { evenement_id: u128, klant_id: u128 },
    SetPaidStatus { evenement_id: u128, klant_id: u128, is_betaald: bool },
    GetTicket { evenement_id: u128, klant_id: u128 },
    ScanTicket { evenement_id: u128, klant_id: u128 },
    SellTicket { evenement_id: u128, klant_oud: u128, klant_nieuw: u128, prijs: u32 },
}

/// The state after one command. Reads leave the state as it is.
pub open spec fn spec_step(s: PalletV, c: Command) -> PalletV {
    match c {
        Command::CreateEvenement { prijs, max_prijs, naam, id, aantal_tickets } => spec_create(
            s,
            prijs,
            max_prijs,
            naam,
            id,
            aantal_tickets,
        ).0,
        Command::GetEvenement { .. } => s,
        Command::GetBeschikbaarheid { .. } => s,
        Command::BuyTicket { evenement_id, klant_id } => spec_buy(s, evenement_id, klant_id).0,
        Command::SetPaidStatus { evenement_id, klant_id, is_betaald } => spec_set_paid(
            s,
            evenement_id,
            klant_id,
            is_betaald,
        ).0,
        Command::GetTicket { .. } => s,
        Command::ScanTicket { evenement_id, klant_id } => spec_scan(s, evenement_id, klant_id).0,
        Command::SellTicket { evenement_id, klant_oud, klant_nieuw, prijs } => spec_sell(
            s,
            evenement_id,
            klant_oud,
            klant_nieuw,
            prijs,
        ).0,
    }
}

/// Well-formedness of a state:
/// - both tables are finite;
/// - a ticket slot exists only under an existing event (tickets come
///   only from `BuyTicket`, which requires the event);
/// - no event has more issued slots than its capacity.
///
/// Every command preserves this, with one proviso for `CreateEvenement`:
/// overwriting an existing event with a capacity below its already
/// issued slots breaks the last clause (see
/// [`crate::laws::lemma_step_preserves_wf`]).
/// The one proviso under which every command preserves [`wf`]: an event
/// record may not be overwritten with a capacity below the slots already
/// issued for that id. Every other command respects capacity
/// unconditionally.
pub open spec fn respects_capacity(s: PalletV, c: Command) -> bool {
    match c {
        Command::CreateEvenement { id, aantal_tickets, .. } => issued(s.tickets, id).len()
            <= aantal_tickets,
        _ => true,
    }
}

pub open spec fn wf(s: PalletV) -> bool {
    &&& s.evenementen.dom().finite()
    &&& s.tickets.dom().finite()
    &&& forall|k: (u128, u128)| #[trigger]
        s.tickets.dom().contains(k) ==> s.evenementen.dom().contains(k.0)
    &&& forall|id: u128| #[trigger]
        s.evenementen.dom().contains(id) ==> issued(s.tickets, id).len()
            <= s.evenementen[id].aantal_tickets
}

} // verus!
