//! Kinetic Monte Carlo model of crystal growth and dissolution on a cubic
//! lattice: the lattice topology, the interface index, the event kernel of a
//! replica and the bookkeeping of an ensemble of replicas.
//!
//! Energies and acceptance probabilities are real-valued and are evaluated by
//! the caller; the library decides which site an event concerns, what the
//! event does to the phase array and to the interface index, and when a
//! replica ends.

pub mod ensemble;
pub mod expr;
pub mod flip;
pub mod frontier;
pub mod growth;
pub mod io_handler;
pub mod item;
pub mod kernel;
pub mod lattice;
pub mod mode;
pub mod rebuild;
pub mod rng;
pub mod settings;
pub mod state;
pub mod text;
