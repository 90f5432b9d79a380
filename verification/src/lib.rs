//! A deterministic ledger of events and tickets.
//!
//! An authorized party registers an event with a face price, a resale
//! ceiling, and a fixed ticket capacity; customers then buy, pay for,
//! scan, and resell tickets. Commands are applied one at a time against
//! a key-value state store, and every command either applies exactly one
//! atomic state change and returns a success outcome, or applies nothing
//! and returns a typed rejection.
//!
//! The crate is laid out in five modules:
//! - [`types`]: the records (`Evenement`, `Ticket`), the outcome and
//!   rejection enums, and their spec-level views;
//! - [`model`]: the mathematical model — a ghost state, one transition
//!   function per command, and the well-formedness predicate;
//! - [`store`]: the in-memory key-value state store, verified against a
//!   `Map` view;
//! - [`pallet`]: the ticket engine, whose every command is proved to
//!   refine the corresponding transition function of the model;
//! - [`laws`]: proofs of the global properties (capacity is never
//!   exceeded, scanning is one-way, payment gates scan and resale, the
//!   resale ceiling, and availability consistency).

pub mod types;
pub mod model;
pub mod store;
pub mod pallet;
pub mod laws;

pub use types::AantalTickets;
pub use types::Error;
pub use types::Event;
pub use types::Evenement;
pub use types::EvenementId;
pub use types::KlantId;
pub use types::MaxPrijs;
pub use types::Naam;
pub use types::Prijs;
pub use types::Ticket;
pub use pallet::Pallet;
