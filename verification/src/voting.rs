//! The vote aggregator: applies one vote event to a project and to its
//! pool's aggregate counter.

use vstd::prelude::*;
use crate::records::Identity;
use crate::records::Pool;
use crate::records::Project;
use crate::records::SolquadError;

verus! {

/// How many entries of `members` equal `owner`.  The member list is scanned
/// in full, so an owner that somehow appears twice is credited twice.
pub open spec fn count_matches(members: Seq<Identity>, owner: Identity) -> nat
    decreases members.len(),
{
    if members.len() == 0 {
        0
    } else {
        count_matches(members.drop_last(), owner) + (if members.last() == owner {
            1nat
        } else {
            0nat
        })
    }
}

/// True when crediting one vote event of weight `amount` overflows none of
/// the three counters it touches.
pub open spec fn vote_fits(pool: Pool, project: Project, amount: u64) -> bool {
    let matches = count_matches(pool.projects@, project.project_owner);
    &&& pool.total_votes < u64::MAX
    &&& project.votes_count + matches <= u64::MAX
    &&& project.voter_amount + matches * amount <= u64::MAX
}

/// Credits one vote event of weight `amount` to `project` within `pool`.
///
/// The pool's member list is scanned for the project's owner; for every
/// matching entry the project gains one vote and `amount` of voter weight.
/// The pool's `total_votes` counts vote events, not matches: it goes up by
/// one even when the project is no member of the pool.  All counter updates
/// are validated against overflow before any record is mutated.
pub fn vote_for_project(pool: &mut Pool, project: &mut Project, amount: u64) -> (result: Result<
    (),
    SolquadError,
>)
    ensures
        // The event is accepted exactly when every counter update fits.
        result is Ok <==> vote_fits(*old(pool), *old(project), amount),
        result is Err ==> result == Err::<(), SolquadError>(SolquadError::ArithmeticOverflow),
        // A failing call changes nothing.
        result is Err ==> *final(pool) == *old(pool) && *final(project) == *old(project),
        // One accepted event: one pool-level vote, and per matching member
        // entry one project-level vote of weight `amount`.
        result is Ok ==> {
            let matches = count_matches(old(pool).projects@, old(project).project_owner);
            &&& final(pool).pool_creator == old(pool).pool_creator
            &&& final(pool).projects@ == old(pool).projects@
            &&& final(pool).total_projects == old(pool).total_projects
            &&& final(pool).total_votes == old(pool).total_votes + 1
            &&& final(project).project_owner == old(project).project_owner
            &&& final(project).project_name == old(project).project_name
            &&& final(project).votes_count == old(project).votes_count + matches
            &&& final(project).voter_amount == old(project).voter_amount + matches * amount
            &&& final(project).distributed_amt == old(project).distributed_amt
            &&& final(project).in_pool == old(project).in_pool
            &&& final(project).associated_pool == old(project).associated_pool
        },
{
    let owner = project.project_owner;
    let member_count = pool.projects.len();
    let mut matched: usize = 0;
    let mut i: usize = 0;
    while i < member_count
        invariant
            member_count == pool.projects@.len(),
            i <= member_count,
            matched <= i,
            matched == count_matches(pool.projects@.subrange(0, i as int), owner),
        decreases member_count - i,
    {
        proof {
            assert(pool.projects@.subrange(0, (i + 1) as int).drop_last() =~= pool.projects@
                .subrange(0, i as int));
            assert(pool.projects@.subrange(0, (i + 1) as int).last() == pool.projects@[i as int]);
        }
        if pool.projects[i] == owner {
            matched = matched + 1;
        }
        i = i + 1;
    }
    proof {
        assert(pool.projects@.subrange(0, member_count as int) =~= pool.projects@);
    }

    proof {
        assert((project.voter_amount as u128) + (matched as u128) * (amount as u128) < u128::MAX)
            by (nonlinear_arith)
            requires
                (project.voter_amount as u128) <= (u64::MAX as u128),
                (matched as u128) <= (u64::MAX as u128),
                (amount as u128) <= (u64::MAX as u128);
    }

    if pool.total_votes == u64::MAX {
        return Err(SolquadError::ArithmeticOverflow);
    }
    if project.votes_count as u128 + matched as u128 > u64::MAX as u128 {
        return Err(SolquadError::ArithmeticOverflow);
    }
    if project.voter_amount as u128 + matched as u128 * amount as u128 > u64::MAX as u128 {
        return Err(SolquadError::ArithmeticOverflow);
    }

    project.votes_count = (project.votes_count as u128 + matched as u128) as u64;
    project.voter_amount = (project.voter_amount as u128 + matched as u128 * amount as u128)
        as u64;
    pool.total_votes = pool.total_votes + 1;

    Ok(())
}

} // verus!
