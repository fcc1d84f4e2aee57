//! A record store for one resource type: an ordered collection of Pokemon
//! records keyed by a unique id, with create, get, update, delete, list
//! and stats operations, and a JSON codec for the file the collection is
//! persisted to. Every operation carries a contract over the collection's
//! mathematical model, and the store's laws — id uniqueness, round trips,
//! and persistence fidelity — are proved once and for all.

pub mod codec;
pub mod laws;
pub mod model;
pub mod store;

pub use model::Pokemon;
pub use model::PokemonType;
