//! Complex logical query answering over knowledge graphs: the integer and
//! set-valued core of the engine.

pub mod abduce;
pub mod adapters;
pub mod calibration;
pub mod conformal;
pub mod eval;
pub mod kg;
pub mod prune;
pub mod provenance;
pub mod query;
pub mod temporal;

pub use prune::CandidateSource;
pub use query::QueryConfig;
