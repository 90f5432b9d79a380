//! The state store on its own: point lookups, overwrites, the two-slot
//! swap in all four occupancy cases, and prefix enumeration.

use upticket::store::{Evenementen, Tickets};
use upticket::{Evenement, Ticket};

fn ticket(prijs: u32) -> Ticket {
    Ticket { prijs, is_betaald: false, is_gescand: false, max_prijs: prijs }
}

#[test]
fn tickets_get_put_contains() {
    let mut s = Tickets::new();
    assert!(!s.contains(1, 7));
    assert_eq!(s.get(1, 7), None);

    s.put(1, 7, ticket(100));
    assert!(s.contains(1, 7));
    assert_eq!(s.get(1, 7), Some(ticket(100)));

    // Overwrite, no existence check.
    s.put(1, 7, ticket(50));
    assert_eq!(s.get(1, 7), Some(ticket(50)));
    assert_eq!(s.count_with_prefix(1), 1);

    // A different holder under the same event is a different slot.
    s.put(1, 8, ticket(60));
    assert_eq!(s.get(1, 7), Some(ticket(50)));
    assert_eq!(s.get(1, 8), Some(ticket(60)));
}

#[test]
fn tickets_get_or_default() {
    let mut s = Tickets::new();
    assert_eq!(s.get_or_default(1, 7, ticket(9)), ticket(9));
    s.put(1, 7, ticket(100));
    assert_eq!(s.get_or_default(1, 7, ticket(9)), ticket(100));
}

#[test]
fn swap_both_present() {
    let mut s = Tickets::new();
    s.put(1, 7, ticket(100));
    s.put(1, 8, ticket(60));
    s.swap(1, 7, 1, 8);
    assert_eq!(s.get(1, 7), Some(ticket(60)));
    assert_eq!(s.get(1, 8), Some(ticket(100)));
}

#[test]
fn swap_with_vacant_slot_moves_and_clears() {
    let mut s = Tickets::new();
    s.put(1, 7, ticket(100));
    s.swap(1, 7, 1, 8);
    assert_eq!(s.get(1, 7), None);
    assert_eq!(s.get(1, 8), Some(ticket(100)));
    // And back, from the vacant side.
    s.swap(1, 7, 1, 8);
    assert_eq!(s.get(1, 7), Some(ticket(100)));
    assert_eq!(s.get(1, 8), None);
}

#[test]
fn swap_of_two_vacant_slots_is_a_no_op() {
    let mut s = Tickets::new();
    s.put(1, 7, ticket(100));
    s.swap(2, 1, 2, 2);
    assert_eq!(s.get(1, 7), Some(ticket(100)));
    assert_eq!(s.get(2, 1), None);
    assert_eq!(s.get(2, 2), None);
}

#[test]
fn swap_of_a_slot_with_itself_is_a_no_op() {
    let mut s = Tickets::new();
    s.put(1, 7, ticket(100));
    s.swap(1, 7, 1, 7);
    assert_eq!(s.get(1, 7), Some(ticket(100)));
}

#[test]
fn prefix_enumeration_and_count_agree() {
    let mut s = Tickets::new();
    s.put(1, 7, ticket(100));
    s.put(2, 7, ticket(50));
    s.put(1, 8, ticket(100));
    s.put(3, 9, ticket(10));

    let keys = s.keys_with_prefix(1);
    assert_eq!(keys.len(), 2);
    assert!(keys.contains(&(1, 7)));
    assert!(keys.contains(&(1, 8)));
    assert_eq!(s.count_with_prefix(1), 2);
    assert_eq!(s.count_with_prefix(2), 1);
    assert_eq!(s.count_with_prefix(4), 0);
    assert!(s.keys_with_prefix(4).is_empty());
}

#[test]
fn evenementen_get_put_contains() {
    let mut s = Evenementen::new();
    assert!(!s.contains(1));
    assert!(s.get(1).is_none());

    s.put(
        1,
        Evenement { id: 1, naam: b"eerste".to_vec(), prijs: 10, max_prijs: 12, aantal_tickets: 3 },
    );
    assert!(s.contains(1));
    let ev = s.get(1).unwrap();
    assert_eq!(ev.naam, b"eerste".to_vec());
    assert_eq!(ev.prijs, 10);

    s.put(
        1,
        Evenement { id: 1, naam: b"tweede".to_vec(), prijs: 20, max_prijs: 24, aantal_tickets: 4 },
    );
    let ev = s.get(1).unwrap();
    assert_eq!(ev.naam, b"tweede".to_vec());
    assert_eq!(ev.aantal_tickets, 4);
}
