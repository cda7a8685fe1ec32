//! The record types of the settlement engine and their constructors.
//!
//! Identities (escrow creators, pool creators, project owners, pool
//! addresses) are opaque to the engine: nothing is ever computed from one
//! except equality.  They are therefore carried as plain `u64` values; the
//! host maps whatever concrete key type its ledger uses onto these ids.

use vstd::prelude::*;

verus! {

/// An opaque identity: an escrow or pool creator, a project owner, or the
/// address of a record.  Only equality of identities is ever used.
pub type Identity = u64;

/// The failures an operation of the engine can report.  Every error is
/// detected before any record is changed, so a failing call leaves all of
/// its arguments exactly as they were.
#[derive(Clone, Copy, Debug, PartialEq, Eq, Structural)]
pub enum SolquadError {
    /// A record already exists at the derived address (reported by the store).
    AlreadyInitialized,
    /// The project is already bound to a different pool.
    AlreadyBound,
    /// A payee identity could not be resolved to a project record.
    ProjectNotFound,
    /// A counter or amount update would overflow its integer range.
    ArithmeticOverflow,
    /// The pool's vote total is zero while some payee holds votes.
    DivisionByZero,
}

/// The escrow record of one matching round: the deposited matching fund and
/// the ordered list of project identities eligible for a share.
#[derive(Clone, Debug)]
#[verifier::ext_equal]
pub struct Escrow {
    /// Identity of the depositor; immutable after creation.
    pub escrow_creator: Identity,
    /// Amount committed to matching; immutable after creation and never
    /// debited by any operation of this engine.
    pub creator_deposit_amount: u64,
    /// Count of payees, maintained redundantly with the payee list's length.
    pub total_projects: u8,
    /// Ordered, append-only list of project owner identities eligible for a
    /// share.  The distribution engine tolerates and deduplicates repeats.
    pub project_reciever_addresses: Vec<Identity>,
}

/// The pool record of one voting round: its members and the aggregate count
/// of vote events submitted against the pool.
#[derive(Clone, Debug)]
#[verifier::ext_equal]
pub struct Pool {
    /// Identity of the pool initializer; immutable after creation.
    pub pool_creator: Identity,
    /// Ordered, append-only list of member project owner identities.
    pub projects: Vec<Identity>,
    /// Count of members, maintained redundantly with the member list's length.
    pub total_projects: u8,
    /// Number of vote events submitted against this pool; incremented once
    /// per accepted vote event, whether or not the event found a member.
    pub total_votes: u64,
}

/// The record of one registered project.
#[derive(Clone, Debug)]
#[verifier::ext_equal]
pub struct Project {
    /// Identity of the registrant; immutable after creation.
    pub project_owner: Identity,
    /// Display name; immutable after creation.
    pub project_name: String,
    /// Number of vote events credited to this project; monotonic.
    pub votes_count: u64,
    /// Cumulative sum of the per-vote weights credited; monotonic.
    pub voter_amount: u64,
    /// Payout computed by the distribution engine; starts at zero and is
    /// overwritten, not accumulated, by each distribution run.
    pub distributed_amt: u64,
    /// True once the project has been bound to a pool.
    pub in_pool: bool,
    /// The bound pool's identity: `None` until binding, then fixed.
    pub associated_pool: Option<Identity>,
}

/// One vote event as the host hands it in: who voted, for which project
/// owner, and with what weight.
#[derive(Clone, Copy, Debug)]
pub struct Voter {
    /// Identity of the voter.
    pub voter: Identity,
    /// Owner identity of the project voted for.
    pub voted_for: Identity,
    /// Weight carried by this vote event.
    pub token_amount: u64,
}

/// Creates a fresh escrow record for `creator` holding `amount`: no payees
/// yet, counters at zero.  Uniqueness of the record at its derived address
/// is the store's concern, not checked here.
pub fn initialize_escrow(creator: Identity, amount: u64) -> (escrow: Escrow)
    ensures
        escrow.escrow_creator == creator,
        escrow.creator_deposit_amount == amount,
        escrow.total_projects == 0,
        escrow.project_reciever_addresses@.len() == 0,
{
    Escrow {
        escrow_creator: creator,
        creator_deposit_amount: amount,
        total_projects: 0,
        project_reciever_addresses: Vec::new(),
    }
}

/// Creates a fresh pool record for `creator`: no members, no votes.
pub fn initialize_pool(creator: Identity) -> (pool: Pool)
    ensures
        pool.pool_creator == creator,
        pool.projects@.len() == 0,
        pool.total_projects == 0,
        pool.total_votes == 0,
{
    Pool { pool_creator: creator, projects: Vec::new(), total_projects: 0, total_votes: 0 }
}

/// Creates a fresh project record for `owner` named `name`: all counters at
/// zero, bound to no pool.
pub fn initialize_project(owner: Identity, name: String) -> (project: Project)
    ensures
        project.project_owner == owner,
        project.project_name == name,
        project.votes_count == 0,
        project.voter_amount == 0,
        project.distributed_amt == 0,
        !project.in_pool,
        project.associated_pool is None,
{
    Project {
        project_owner: owner,
        project_name: name,
        votes_count: 0,
        voter_amount: 0,
        distributed_amt: 0,
        in_pool: false,
        associated_pool: None,
    }
}

} // verus!
