//! Core of a client-side recommendation widget.
//!
//! The library covers the widget's interactive query/load state machine:
//! a polled, once-only dataset load that turns delimited text into an
//! in-memory catalog of rated items and a tag index, and a per-keystroke
//! query step that derives a typeahead suggestion and a recommendation,
//! together with the change detection that decides whether the view must
//! be redrawn.
//!
//! The host drives the [`Model`] through a serialized inbox of [`Msg`]
//! events: a periodic load tick and user query input. All outside work
//! (the network fetch and the opaque ranking engine's query) is performed
//! by the host, which hands the library plain values; every decision and
//! every state transition is made here, under contract.

mod catalog;
mod index;
mod laws;
mod model;
mod rating;
mod text;

pub use catalog::Catalog;
pub use index::TagIndex;
pub use laws::lemma_entries_insert_unique;
pub use laws::lemma_load_pass_catalog;
pub use laws::lemma_load_pass_no_empty_tags;
pub use laws::lemma_load_pass_objects;
pub use laws::lemma_load_pass_tags;
pub use model::LoadError;
pub use model::LoadState;
pub use model::Model;
pub use model::Msg;
pub use model::TickEffect;
pub use rating::parse_rating;
pub use text::split_commas;
