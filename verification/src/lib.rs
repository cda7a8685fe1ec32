//! A matching-pool settlement engine in the quadratic-funding style.
//!
//! A creator deposits a fixed matching fund into an escrow, projects join a
//! voting pool, voters cast weighted votes for projects, and finally the
//! deposited amount is split across the pool's projects in proportion to the
//! votes each one received.  This crate holds the verified core: the record
//! types, the membership binder, the vote aggregator and the distribution
//! engine.  Durable storage of the records and authentication of callers are
//! the host's concern; every operation here is a plain function from record
//! values to record values.

pub mod records;
pub mod membership;
pub mod voting;
pub mod distribution;
pub mod laws;

pub use records::Escrow;
pub use records::Pool;
pub use records::Project;
pub use records::Voter;
pub use records::SolquadError;
pub use records::initialize_escrow;
pub use records::initialize_pool;
pub use records::initialize_project;
pub use membership::add_project_to_pool;
pub use voting::vote_for_project;
pub use distribution::distribute_escrow_amount;
