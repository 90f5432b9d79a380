//! The global laws of the ledger, proved of the transition functions in
//! [`crate::model`]. Since every engine method is proved to refine its
//! transition function, each law carries over to every execution.

use vstd::prelude::*;
use vstd::set_lib::lemma_len_subset;
use crate::types::{Error, EventV, Ticket};
use crate::model::{
    Command, PalletV, initial, issued, map_swap, respects_capacity, spec_beschikbaarheid, spec_buy,
    spec_scan, spec_sell, spec_set_paid, spec_step, wf,
};

verus! {

broadcast use vstd::set::group_set_axioms, vstd::map::group_map_axioms;

/// The issued-slot set of a finite tickets table is finite.
proof fn lemma_issued_finite(tickets: Map<(u128, u128), Ticket>, id: u128)
    requires
        tickets.dom().finite(),
    ensures
        issued(tickets, id).finite(),
{
    assert(issued(tickets, id).subset_of(tickets.dom()));
    lemma_len_subset(issued(tickets, id), tickets.dom());
}

/// How an insert changes the issued-slot set: the slot joins its own
/// event's set and no other.
proof fn lemma_issued_insert(m: Map<(u128, u128), Ticket>, k: (u128, u128), t: Ticket, id: u128)
    ensures
        k.0 == id ==> issued(m.insert(k, t), id) =~= issued(m, id).insert(k),
        k.0 != id ==> issued(m.insert(k, t), id) =~= issued(m, id),
{
}

/// The state before any command is well-formed.
pub proof fn lemma_initial_wf()
    ensures
        wf(initial()),
{
}

/// Capacity invariant, preservation step: every command keeps a
/// well-formed state well-formed — so the issued slots of an event never
/// exceed its capacity, and tickets exist only under existing events —
/// with one proviso, [`respects_capacity`]: overwriting an event record
/// with a capacity below its already issued slots (for instance,
/// re-creating an event of capacity five and three issued tickets with
/// capacity one) leaves the state with more slots than the new record
/// admits, and is the one step this law must exclude.
pub proof fn lemma_step_preserves_wf(s: PalletV, c: Command)
    requires
        wf(s),
        respects_capacity(s, c),
    ensures
        wf(spec_step(s, c)),
{
    match c {
        Command::CreateEvenement { prijs, max_prijs, naam, id, aantal_tickets } => {
            let s1 = spec_step(s, c);
            assert forall|id2: u128| s1.evenementen.dom().contains(id2) implies issued(
                s1.tickets,
                id2,
            ).len() <= s1.evenementen[id2].aantal_tickets by {
                if id2 != id {
                    assert(s.evenementen.dom().contains(id2));
                }
            }
        },
        Command::GetEvenement { .. } => {
        },
        Command::GetBeschikbaarheid { .. } => {
        },
        Command::BuyTicket { evenement_id, klant_id } => {
            lemma_buy_preserves_wf(s, evenement_id, klant_id);
        },
        Command::SetPaidStatus { evenement_id, klant_id, is_betaald } => {
            let r = spec_set_paid(s, evenement_id, klant_id, is_betaald);
            if s.tickets.dom().contains((evenement_id, klant_id)) {
                lemma_overwrite_preserves_wf(
                    s,
                    (evenement_id, klant_id),
                    r.0.tickets[(evenement_id, klant_id)],
                );
            }
        },
        Command::GetTicket { .. } => {
        },
        Command::ScanTicket { evenement_id, klant_id } => {
            let r = spec_scan(s, evenement_id, klant_id);
            if r.1 matches Ok(_) {
                lemma_overwrite_preserves_wf(
                    s,
                    (evenement_id, klant_id),
                    r.0.tickets[(evenement_id, klant_id)],
                );
            }
        },
        Command::SellTicket { evenement_id, klant_oud, klant_nieuw, prijs } => {
            lemma_sell_preserves_wf(s, evenement_id, klant_oud, klant_nieuw, prijs);
        },
    }
}

/// Overwriting the ticket at an existing slot leaves every issued-slot
/// set, and hence well-formedness, untouched.
proof fn lemma_overwrite_preserves_wf(s: PalletV, k: (u128, u128), t: Ticket)
    requires
        wf(s),
        s.tickets.dom().contains(k),
    ensures
        wf(PalletV { evenementen: s.evenementen, tickets: s.tickets.insert(k, t) }),
{
    let m1 = s.tickets.insert(k, t);
    assert(m1.dom() =~= s.tickets.dom());
    assert forall|id: u128| s.evenementen.dom().contains(id) implies issued(m1, id).len()
        <= s.evenementen[id].aantal_tickets by {
        assert(issued(m1, id) =~= issued(s.tickets, id));
    }
}

proof fn lemma_buy_preserves_wf(s: PalletV, evenement_id: u128, klant_id: u128)
    requires
        wf(s),
    ensures
        wf(spec_buy(s, evenement_id, klant_id).0),
{
    let r = spec_buy(s, evenement_id, klant_id);
    if r.1 matches Ok(_) {
        let k = (evenement_id, klant_id);
        let m1 = r.0.tickets;
        let cap = s.evenementen[evenement_id].aantal_tickets;
        lemma_issued_finite(s.tickets, evenement_id);
        assert(issued(s.tickets, evenement_id).len() < cap);
        assert(m1.dom() =~= s.tickets.dom().insert(k));
        assert forall|id: u128| s.evenementen.dom().contains(id) implies issued(m1, id).len()
            <= s.evenementen[id].aantal_tickets by {
            lemma_issued_insert(s.tickets, k, m1[k], id);
            lemma_issued_finite(s.tickets, id);
            if id == evenement_id {
                assert(issued(m1, id).len() <= issued(s.tickets, id).len() + 1);
            } else {
                assert(issued(m1, id).len() == issued(s.tickets, id).len());
            }
        }
    }
}

proof fn lemma_sell_preserves_wf(
    s: PalletV,
    evenement_id: u128,
    klant_oud: u128,
    klant_nieuw: u128,
    prijs: u32,
)
    requires
        wf(s),
    ensures
        wf(spec_sell(s, evenement_id, klant_oud, klant_nieuw, prijs).0),
{
    let r = spec_sell(s, evenement_id, klant_oud, klant_nieuw, prijs);
    if r.1 matches Ok(_) {
        let a = (evenement_id, klant_oud);
        let b = (evenement_id, klant_nieuw);
        let m0 = s.tickets;
        let m1 = map_swap(m0, a, b);
        if m0.dom().contains(b) {
            assert(m1.dom() =~= m0.dom());
            assert forall|id: u128| s.evenementen.dom().contains(id) implies issued(m1, id).len()
                <= s.evenementen[id].aantal_tickets by {
                assert(issued(m1, id) =~= issued(m0, id));
            }
        } else {
            assert(m1.dom() =~= m0.dom().remove(a).insert(b));
            assert forall|id: u128| s.evenementen.dom().contains(id) implies issued(m1, id).len()
                <= s.evenementen[id].aantal_tickets by {
                lemma_issued_finite(m0, id);
                if id == evenement_id {
                    assert(issued(m1, id) =~= issued(m0, id).remove(a).insert(b));
                    assert(issued(m0, id).contains(a));
                    assert(!issued(m0, id).remove(a).contains(b));
                    assert(issued(m1, id).len() == issued(m0, id).len());
                } else {
                    assert(issued(m1, id) =~= issued(m0, id));
                }
            }
        }
    }
}

/// Capacity invariant, rejection half: once an event's capacity is
/// exhausted — as many slots issued as its capacity admits — a further
/// purchase for that event is always rejected `NoTicketsAvailable`, and
/// the state does not change.
pub proof fn lemma_buy_rejects_when_full(s: PalletV, evenement_id: u128, klant_id: u128)
    requires
        wf(s),
        s.evenementen.dom().contains(evenement_id),
        issued(s.tickets, evenement_id).len() == s.evenementen[evenement_id].aantal_tickets,
    ensures
        spec_buy(s, evenement_id, klant_id) == (s, Err::<EventV, Error>(Error::NoTicketsAvailable)),
{
    assert(spec_beschikbaarheid(s, evenement_id) == 0);
}

/// Scan monotonicity, state half: a slot that holds a scanned ticket
/// still holds a scanned ticket after any command — scanning is
/// one-way, and no command clears the flag. The two excluded cases are
/// the commands that replace the slot's ticket wholesale rather than
/// editing it: a repeated purchase of the very slot overwrites it with
/// a fresh, unscanned ticket, and a resale directed at the very slot
/// displaces its ticket into the seller's slot. (A resale *of* a
/// scanned ticket is no exception: it is rejected, see
/// [`lemma_sell_succeeds_iff`].)
pub proof fn lemma_scan_flag_monotone(s: PalletV, c: Command, slot: (u128, u128))
    requires
        s.tickets.dom().contains(slot),
        s.tickets[slot].is_gescand,
        !(c matches Command::BuyTicket { evenement_id, klant_id } && slot == (
        evenement_id,
        klant_id,
        )),
        !(c matches Command::SellTicket { evenement_id, klant_oud, klant_nieuw, .. } && slot == (
        evenement_id,
        klant_nieuw,
        ) && klant_nieuw != klant_oud),
    ensures
        spec_step(s, c).tickets.dom().contains(slot),
        spec_step(s, c).tickets[slot].is_gescand,
{
    match c {
        Command::SellTicket { evenement_id, klant_oud, klant_nieuw, prijs } => {
            let r = spec_sell(s, evenement_id, klant_oud, klant_nieuw, prijs);
            if r.1 matches Ok(_) {
                assert(slot != (evenement_id, klant_oud));
                assert(slot != (evenement_id, klant_nieuw));
            }
        },
        _ => {
        },
    }
}

/// Scan monotonicity, rejection half: after a successful scan of a
/// slot, a second scan of the same slot is always rejected
/// `TicketAlreadyScanned`, and the state does not change.
pub proof fn lemma_second_scan_rejects(s: PalletV, evenement_id: u128, klant_id: u128)
    requires
        spec_scan(s, evenement_id, klant_id).1 matches Ok(_),
    ensures
        spec_scan(spec_scan(s, evenement_id, klant_id).0, evenement_id, klant_id) == (
            spec_scan(s, evenement_id, klant_id).0,
            Err::<EventV, Error>(Error::TicketAlreadyScanned),
        ),
{
}

/// Payment gate for scanning: an issued but unpaid ticket is rejected
/// `TicketNotPaid`, whatever its other fields, and the state does not
/// change.
pub proof fn lemma_scan_gates_on_payment(s: PalletV, evenement_id: u128, klant_id: u128)
    requires
        s.tickets.dom().contains((evenement_id, klant_id)),
        !s.tickets[(evenement_id, klant_id)].is_betaald,
    ensures
        spec_scan(s, evenement_id, klant_id) == (s, Err::<EventV, Error>(Error::TicketNotPaid)),
{
}

/// Payment gate for resale: in a well-formed state, a resale of an
/// issued but unpaid ticket is rejected `TicketNotPaid`, whatever its
/// other fields, and the state does not change.
pub proof fn lemma_sell_gates_on_payment(
    s: PalletV,
    evenement_id: u128,
    klant_oud: u128,
    klant_nieuw: u128,
    prijs: u32,
)
    requires
        wf(s),
        s.tickets.dom().contains((evenement_id, klant_oud)),
        !s.tickets[(evenement_id, klant_oud)].is_betaald,
    ensures
        spec_sell(s, evenement_id, klant_oud, klant_nieuw, prijs) == (
            s,
            Err::<EventV, Error>(Error::TicketNotPaid),
        ),
{
    assert(s.evenementen.dom().contains(evenement_id));
}

/// Resale ceiling: a resale succeeds exactly when the event exists, the
/// seller's slot holds a paid, unscanned ticket, and the asking price
/// does not exceed the ticket's own resale ceiling; an asking price over
/// the ceiling of such a ticket is rejected `ResellPriceTooHigh` with
/// the state unchanged. The boundary holds: asking exactly the ceiling
/// succeeds, one more rejects.
pub proof fn lemma_sell_succeeds_iff(
    s: PalletV,
    evenement_id: u128,
    klant_oud: u128,
    klant_nieuw: u128,
    prijs: u32,
)
    ensures
        spec_sell(s, evenement_id, klant_oud, klant_nieuw, prijs).1 matches Ok(_) <==> ({
            &&& s.evenementen.dom().contains(evenement_id)
            &&& s.tickets.dom().contains((evenement_id, klant_oud))
            &&& s.tickets[(evenement_id, klant_oud)].is_betaald
            &&& !s.tickets[(evenement_id, klant_oud)].is_gescand
            &&& prijs <= s.tickets[(evenement_id, klant_oud)].max_prijs
        }),
        ({
            &&& s.evenementen.dom().contains(evenement_id)
            &&& s.tickets.dom().contains((evenement_id, klant_oud))
            &&& s.tickets[(evenement_id, klant_oud)].is_betaald
            &&& !s.tickets[(evenement_id, klant_oud)].is_gescand
            &&& prijs > s.tickets[(evenement_id, klant_oud)].max_prijs
        }) ==> spec_sell(s, evenement_id, klant_oud, klant_nieuw, prijs) == (
            s,
            Err::<EventV, Error>(Error::ResellPriceTooHigh),
        ),
{
}

/// Availability consistency: in a well-formed state, the availability of
/// an existing event plus its issued slots is exactly its capacity — the
/// derived value never saturates, and always equals capacity minus the
/// scan-based count.
pub proof fn lemma_beschikbaarheid_consistent(s: PalletV, id: u128)
    requires
        wf(s),
        s.evenementen.dom().contains(id),
    ensures
        spec_beschikbaarheid(s, id) + issued(s.tickets, id).len() == s.evenementen[
            id
        ].aantal_tickets,
{
}

/// The state after applying the commands of `cs` in order.
pub open spec fn run(s: PalletV, cs: Seq<Command>) -> PalletV
    decreases cs.len(),
{
    if cs.len() == 0 {
        s
    } else {
        run(spec_step(s, cs.first()), cs.drop_first())
    }
}

/// Well-formedness carried over a whole command sequence: applying any
/// commands in order, each step respecting [`respects_capacity`], keeps
/// the state well-formed — so after any such sequence, no event's
/// issued slots exceed its capacity, and tickets stand only under
/// existing events.
pub proof fn lemma_run_preserves_wf(s: PalletV, cs: Seq<Command>)
    requires
        wf(s),
        forall|i: int| 0 <= i < cs.len() ==> respects_capacity(
            run(s, cs.take(i)),
            #[trigger] cs[i],
        ),
    ensures
        wf(run(s, cs)),
    decreases cs.len(),
{
    if cs.len() == 0 {
    } else {
        assert(cs.take(0) =~= Seq::<Command>::empty());
        assert(respects_capacity(s, cs.first()));
        lemma_step_preserves_wf(s, cs.first());
        let s1 = spec_step(s, cs.first());
        assert forall|i: int| 0 <= i < cs.drop_first().len() implies respects_capacity(
            run(s1, cs.drop_first().take(i)),
            #[trigger] cs.drop_first()[i],
        ) by {
            assert(cs.take(i + 1).first() == cs.first());
            assert(cs.take(i + 1).drop_first() =~= cs.drop_first().take(i));
            assert(run(s, cs.take(i + 1)) == run(s1, cs.drop_first().take(i)));
            assert(cs.drop_first()[i] == cs[i + 1]);
        }
        lemma_run_preserves_wf(s1, cs.drop_first());
        assert(run(s, cs) == run(s1, cs.drop_first()));
    }
}

/// Capacity invariant in full: starting from the empty ledger, after any
/// sequence of commands in which no event is overwritten below its
/// issued slots, the number of distinct issued ticket slots of every
/// event stays within that event's capacity.
pub proof fn lemma_capacity_never_exceeded(cs: Seq<Command>, id: u128)
    requires
        forall|i: int| 0 <= i < cs.len() ==> respects_capacity(
            run(initial(), cs.take(i)),
            #[trigger] cs[i],
        ),
        run(initial(), cs).evenementen.dom().contains(id),
    ensures
        issued(run(initial(), cs).tickets, id).len() <= run(initial(), cs).evenementen[
            id
        ].aantal_tickets,
{
    lemma_initial_wf();
    lemma_run_preserves_wf(initial(), cs);
}

} // verus!
