//! Per-command behavior: rejections, edge cases, and the availability
//! count after every kind of mutation.

use upticket::{Error, Event, Pallet, Ticket};

const A: u128 = 7;
const B: u128 = 8;
const C: u128 = 9;

fn ticket_of(r: Result<Event, Error>) -> Ticket {
    match r {
        Ok(Event::TicketAangemaakt(t)) => t,
        Ok(Event::Ticket(t)) => t,
        other => panic!("expected a ticket outcome, got {:?}", other),
    }
}

#[test]
fn create_stores_the_record() {
    let mut p = Pallet::new();
    let r = p.create_evenement(100, 120, b"opening night".to_vec(), 1, 50);
    match r {
        Ok(Event::EvenementAangemaakt(ev)) => {
            assert_eq!(ev.id, 1);
            assert_eq!(ev.naam, b"opening night".to_vec());
            assert_eq!(ev.prijs, 100);
            assert_eq!(ev.max_prijs, 120);
            assert_eq!(ev.aantal_tickets, 50);
        },
        other => panic!("expected a created-event outcome, got {:?}", other),
    }
    match p.get_evenement(1) {
        Ok(Event::Evenement(ev)) => {
            assert_eq!(ev.naam, b"opening night".to_vec());
            assert_eq!(ev.aantal_tickets, 50);
        },
        other => panic!("expected an event outcome, got {:?}", other),
    }
}

#[test]
fn create_overwrites_an_existing_id() {
    let mut p = Pallet::new();
    assert!(p.create_evenement(100, 120, b"first".to_vec(), 1, 5).is_ok());
    assert!(p.create_evenement(70, 90, b"second".to_vec(), 1, 8).is_ok());
    match p.get_evenement(1) {
        Ok(Event::Evenement(ev)) => {
            assert_eq!(ev.naam, b"second".to_vec());
            assert_eq!(ev.prijs, 70);
            assert_eq!(ev.max_prijs, 90);
            assert_eq!(ev.aantal_tickets, 8);
        },
        other => panic!("expected an event outcome, got {:?}", other),
    }
}

#[test]
fn get_evenement_rejects_missing_id() {
    let p = Pallet::new();
    assert_eq!(p.get_evenement(1).unwrap_err(), Error::EventNotFound);
}

#[test]
fn availability_tracks_every_mutation() {
    let mut p = Pallet::new();
    assert!(p.create_evenement(100, 120, b"hall".to_vec(), 1, 3).is_ok());
    match p.get_evenement_beschikbaarheid(1) {
        Ok(Event::Beschikbaarheid(n)) => assert_eq!(n, 3),
        other => panic!("expected an availability outcome, got {:?}", other),
    }
    ticket_of(p.buy_ticket(1, A));
    assert_eq!(p.get_beschikbaarheid(1), 2);
    ticket_of(p.buy_ticket(1, B));
    assert_eq!(p.get_beschikbaarheid(1), 1);
    // Payment and scanning add no slot.
    ticket_of(p.set_paid_status(1, A, true));
    assert_eq!(p.get_beschikbaarheid(1), 1);
    ticket_of(p.scan_ticket(1, A));
    assert_eq!(p.get_beschikbaarheid(1), 1);
    // A resale moves a slot, never adds one.
    ticket_of(p.set_paid_status(1, B, true));
    ticket_of(p.sell_ticket(1, B, C, 100));
    assert_eq!(p.get_beschikbaarheid(1), 1);
    ticket_of(p.buy_ticket(1, B));
    assert_eq!(p.get_beschikbaarheid(1), 0);
    assert_eq!(p.buy_ticket(1, 10).unwrap_err(), Error::NoTicketsAvailable);
}

#[test]
fn availability_of_missing_event_is_zero() {
    let p = Pallet::new();
    assert_eq!(p.get_evenement_beschikbaarheid(1).unwrap_err(), Error::EventNotFound);
    assert_eq!(p.get_beschikbaarheid(1), 0);
}

#[test]
fn rebuying_a_held_slot_adds_no_slot() {
    let mut p = Pallet::new();
    assert!(p.create_evenement(100, 120, b"hall".to_vec(), 1, 2).is_ok());
    ticket_of(p.buy_ticket(1, A));
    ticket_of(p.set_paid_status(1, A, true));
    // The same holder buys again: the slot is overwritten with a fresh
    // unpaid ticket, and the count of distinct slots stays one.
    let t = ticket_of(p.buy_ticket(1, A));
    assert!(!t.is_betaald);
    assert_eq!(p.get_ticket(1, A), t);
    assert_eq!(p.get_beschikbaarheid(1), 1);
}

#[test]
fn buy_rejects_missing_event() {
    let mut p = Pallet::new();
    assert_eq!(p.buy_ticket(1, A).unwrap_err(), Error::EventNotFound);
}

#[test]
fn buy_rejects_capacity_zero() {
    let mut p = Pallet::new();
    assert!(p.create_evenement(100, 120, b"empty".to_vec(), 1, 0).is_ok());
    assert_eq!(p.get_beschikbaarheid(1), 0);
    assert_eq!(p.buy_ticket(1, A).unwrap_err(), Error::NoTicketsAvailable);
}

#[test]
fn set_paid_status_rejects_missing_slot() {
    let mut p = Pallet::new();
    assert!(p.create_evenement(100, 120, b"hall".to_vec(), 1, 1).is_ok());
    assert_eq!(p.set_paid_status(1, A, true).unwrap_err(), Error::TicketNotFound);
    // The rejected command issued nothing.
    assert_eq!(p.get_ticket(1, A), Ticket::default());
    assert_eq!(p.get_beschikbaarheid(1), 1);
}

#[test]
fn set_paid_status_overwrites_both_ways() {
    let mut p = Pallet::new();
    assert!(p.create_evenement(100, 120, b"hall".to_vec(), 1, 1).is_ok());
    ticket_of(p.buy_ticket(1, A));
    ticket_of(p.set_paid_status(1, A, true));
    assert!(p.get_ticket(1, A).is_betaald);
    ticket_of(p.set_paid_status(1, A, false));
    assert!(!p.get_ticket(1, A).is_betaald);
}

#[test]
fn get_ticket_of_vacant_slot_is_the_default() {
    let p = Pallet::new();
    let t = p.get_ticket(1, A);
    assert_eq!(t, Ticket { prijs: 0, is_betaald: false, is_gescand: false, max_prijs: 0 });
}

#[test]
fn scan_rejects_missing_slot() {
    let mut p = Pallet::new();
    assert_eq!(p.scan_ticket(1, A).unwrap_err(), Error::TicketNotFound);
}

#[test]
fn scan_rejects_unpaid_ticket() {
    let mut p = Pallet::new();
    assert!(p.create_evenement(100, 120, b"hall".to_vec(), 1, 1).is_ok());
    ticket_of(p.buy_ticket(1, A));
    assert_eq!(p.scan_ticket(1, A).unwrap_err(), Error::TicketNotPaid);
    assert!(!p.get_ticket(1, A).is_gescand);
}

#[test]
fn payment_is_checked_before_the_scan_flag() {
    let mut p = Pallet::new();
    assert!(p.create_evenement(100, 120, b"hall".to_vec(), 1, 1).is_ok());
    ticket_of(p.buy_ticket(1, A));
    ticket_of(p.set_paid_status(1, A, true));
    ticket_of(p.scan_ticket(1, A));
    // Withdraw the payment of a scanned ticket: both gates would fire,
    // and the payment gate wins, whatever the other fields say.
    ticket_of(p.set_paid_status(1, A, false));
    assert_eq!(p.scan_ticket(1, A).unwrap_err(), Error::TicketNotPaid);
    assert_eq!(p.sell_ticket(1, A, B, 0).unwrap_err(), Error::TicketNotPaid);
}

#[test]
fn sell_rejects_missing_event_before_missing_slot() {
    let mut p = Pallet::new();
    assert_eq!(p.sell_ticket(1, A, B, 10).unwrap_err(), Error::EventNotFound);
    assert!(p.create_evenement(100, 120, b"hall".to_vec(), 1, 1).is_ok());
    assert_eq!(p.sell_ticket(1, A, B, 10).unwrap_err(), Error::TicketNotFound);
}

#[test]
fn sell_rejects_unpaid_then_scanned_then_price() {
    let mut p = Pallet::new();
    assert!(p.create_evenement(100, 120, b"hall".to_vec(), 1, 1).is_ok());
    ticket_of(p.buy_ticket(1, A));
    assert_eq!(p.sell_ticket(1, A, B, 100).unwrap_err(), Error::TicketNotPaid);
    ticket_of(p.set_paid_status(1, A, true));
    ticket_of(p.scan_ticket(1, A));
    assert_eq!(p.sell_ticket(1, A, B, 100).unwrap_err(), Error::TicketAlreadyScanned);
}

#[test]
fn resale_ceiling_boundary() {
    let mut p = Pallet::new();
    assert!(p.create_evenement(100, 120, b"hall".to_vec(), 1, 1).is_ok());
    ticket_of(p.buy_ticket(1, A));
    ticket_of(p.set_paid_status(1, A, true));
    // One above the ticket's ceiling rejects and changes nothing ...
    assert_eq!(p.sell_ticket(1, A, B, 121).unwrap_err(), Error::ResellPriceTooHigh);
    assert_eq!(p.get_ticket(1, B), Ticket::default());
    assert!(p.get_ticket(1, A).is_betaald);
    // ... exactly the ceiling succeeds.
    let t = ticket_of(p.sell_ticket(1, A, B, 120));
    assert_eq!(p.get_ticket(1, B), t);
}

#[test]
fn ceiling_is_the_tickets_not_the_events() {
    let mut p = Pallet::new();
    assert!(p.create_evenement(100, 120, b"hall".to_vec(), 1, 2).is_ok());
    ticket_of(p.buy_ticket(1, A));
    ticket_of(p.set_paid_status(1, A, true));
    // Overwrite the event with a higher ceiling: the issued ticket keeps
    // the ceiling it was bought under.
    assert!(p.create_evenement(100, 200, b"hall".to_vec(), 1, 2).is_ok());
    assert_eq!(p.sell_ticket(1, A, B, 200).unwrap_err(), Error::ResellPriceTooHigh);
    let t = ticket_of(p.sell_ticket(1, A, B, 120));
    assert_eq!(t.max_prijs, 120);
}

#[test]
fn overwriting_with_a_smaller_capacity_saturates_availability() {
    let mut p = Pallet::new();
    assert!(p.create_evenement(100, 120, b"hall".to_vec(), 1, 2).is_ok());
    ticket_of(p.buy_ticket(1, A));
    ticket_of(p.buy_ticket(1, B));
    assert!(p.create_evenement(100, 120, b"hall".to_vec(), 1, 1).is_ok());
    // Two slots stand issued against a recorded capacity of one: the
    // derived availability floors at zero rather than wrapping around.
    assert_eq!(p.get_beschikbaarheid(1), 0);
    assert_eq!(p.buy_ticket(1, C).unwrap_err(), Error::NoTicketsAvailable);
}

#[test]
fn capacity_is_exhausted_by_the_last_slot() {
    let mut p = Pallet::new();
    assert!(p.create_evenement(5, 6, Vec::new(), 1, 3).is_ok());
    ticket_of(p.buy_ticket(1, A));
    ticket_of(p.buy_ticket(1, B));
    ticket_of(p.buy_ticket(1, C));
    assert_eq!(p.buy_ticket(1, 10).unwrap_err(), Error::NoTicketsAvailable);
    assert_eq!(p.get_beschikbaarheid(1), 0);
}

#[test]
fn events_are_independent() {
    let mut p = Pallet::new();
    assert!(p.create_evenement(100, 120, b"one".to_vec(), 1, 1).is_ok());
    assert!(p.create_evenement(50, 60, b"two".to_vec(), 2, 2).is_ok());
    ticket_of(p.buy_ticket(1, A));
    assert_eq!(p.get_beschikbaarheid(1), 0);
    assert_eq!(p.get_beschikbaarheid(2), 2);
    let t = ticket_of(p.buy_ticket(2, A));
    assert_eq!(t.prijs, 50);
    assert_eq!(t.max_prijs, 60);
    assert_eq!(p.get_beschikbaarheid(2), 1);
}
