//! The membership binder: links a project to a pool and mirrors the link
//! into the escrow's payee list, enforcing single-pool membership.

use vstd::prelude::*;
use crate::records::Escrow;
use crate::records::Identity;
use crate::records::Pool;
use crate::records::Project;
use crate::records::SolquadError;

verus! {

/// Binds `project` to the pool whose identity is `pool_id`, appending the
/// project's owner to the pool's member list and to the escrow's payee list.
///
/// A project belongs to at most one pool for its lifetime: binding a project
/// that is already bound to a different pool fails with `AlreadyBound`, and
/// binding it again to the same pool succeeds without touching any list.
/// All preconditions are validated before any record is mutated, so a
/// failing call leaves every record unchanged.
pub fn add_project_to_pool(
    escrow: &mut Escrow,
    pool: &mut Pool,
    pool_id: Identity,
    project: &mut Project,
) -> (result: Result<(), SolquadError>)
    ensures
        // The project is rejected exactly when it is already bound elsewhere.
        (result == Err::<(), SolquadError>(SolquadError::AlreadyBound)) <==> (old(project).in_pool
            && old(project).associated_pool != Some(pool_id)),
        // The member counters are the only quantities that can overflow.
        (result == Err::<(), SolquadError>(SolquadError::ArithmeticOverflow)) <==> ({
            &&& !(old(project).in_pool && old(project).associated_pool != Some(pool_id))
            &&& old(project).associated_pool != Some(pool_id)
            &&& (old(pool).total_projects == u8::MAX || old(escrow).total_projects == u8::MAX)
        }),
        // No other error is ever reported.
        result is Err ==> (result == Err::<(), SolquadError>(SolquadError::AlreadyBound) || result
            == Err::<(), SolquadError>(SolquadError::ArithmeticOverflow)),
        // A failing call changes nothing.
        result is Err ==> {
            &&& *final(escrow) == *old(escrow)
            &&& *final(pool) == *old(pool)
            &&& *final(project) == *old(project)
        },
        // Re-binding to the pool the project is already bound to is a no-op.
        (result is Ok && old(project).associated_pool == Some(pool_id)) ==> {
            &&& *final(escrow) == *old(escrow)
            &&& *final(pool) == *old(pool)
            &&& *final(project) == *old(project)
        },
        // A first binding appends the owner to both lists, bumps both
        // counters, and marks the project bound; nothing else moves.
        (result is Ok && old(project).associated_pool != Some(pool_id)) ==> {
            &&& final(pool).pool_creator == old(pool).pool_creator
            &&& final(pool).projects@ == old(pool).projects@.push(old(project).project_owner)
            &&& final(pool).total_projects == old(pool).total_projects + 1
            &&& final(pool).total_votes == old(pool).total_votes
            &&& final(escrow).escrow_creator == old(escrow).escrow_creator
            &&& final(escrow).creator_deposit_amount == old(escrow).creator_deposit_amount
            &&& final(escrow).total_projects == old(escrow).total_projects + 1
            &&& final(escrow).project_reciever_addresses@ == old(
                escrow
            ).project_reciever_addresses@.push(old(project).project_owner)
            &&& final(project).project_owner == old(project).project_owner
            &&& final(project).project_name == old(project).project_name
            &&& final(project).votes_count == old(project).votes_count
            &&& final(project).voter_amount == old(project).voter_amount
            &&& final(project).distributed_amt == old(project).distributed_amt
            &&& final(project).in_pool
            &&& final(project).associated_pool == Some(pool_id)
        },
{
    let already_same_pool = match project.associated_pool {
        Some(bound) => bound == pool_id,
        None => false,
    };
    if project.in_pool && !already_same_pool {
        return Err(SolquadError::AlreadyBound);
    }
    if already_same_pool {
        return Ok(());
    }
    if pool.total_projects == u8::MAX || escrow.total_projects == u8::MAX {
        return Err(SolquadError::ArithmeticOverflow);
    }

    pool.projects.push(project.project_owner);
    pool.total_projects = pool.total_projects + 1;

    escrow.project_reciever_addresses.push(project.project_owner);
    escrow.total_projects = escrow.total_projects + 1;

    project.in_pool = true;
    project.associated_pool = Some(pool_id);

    Ok(())
}

} // verus!
