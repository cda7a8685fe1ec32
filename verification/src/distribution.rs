//! The distribution engine: walks the escrow's payee list once and writes
//! each distinct payee's proportional share of the deposit into its project
//! record, exactly once per run.

use vstd::prelude::*;
use crate::records::Escrow;
use crate::records::Identity;
use crate::records::Pool;
use crate::records::Project;
use crate::records::SolquadError;

verus! {

/// The payout owed to a project holding `votes` of a pool's `total_votes`
/// while `deposit` is being matched.  The product is taken before the
/// division, so the vote ratio is never truncated to zero first; a project
/// without votes is owed nothing whatever the total is.
pub open spec fn share_of(votes: u64, deposit: u64, total_votes: u64) -> int {
    if votes == 0 {
        0
    } else {
        (votes * deposit) / (total_votes as int)
    }
}

/// True when `ps[j]` is the first record in `ps` carrying its owner
/// identity.  Each owner identity has at most one such index.
pub open spec fn first_with_owner(ps: Seq<Project>, j: int) -> bool {
    &&& 0 <= j < ps.len()
    &&& forall|k: int| 0 <= k < j ==> ps[k].project_owner != ps[j].project_owner
}

/// True when some record in `ps` carries the owner identity `id`.
pub open spec fn resolves(ps: Seq<Project>, id: Identity) -> bool {
    exists|j: int| 0 <= j < ps.len() && ps[j].project_owner == id
}

/// Index of the first record in `ps` whose owner is `id`, or `-1` when no
/// record carries that identity.
pub open spec fn first_match(ps: Seq<Project>, id: Identity) -> int
    decreases ps.len(),
{
    if ps.len() == 0 {
        -1
    } else if ps[0].project_owner == id {
        0
    } else {
        let rest = first_match(ps.subrange(1, ps.len() as int), id);
        if rest == -1 {
            -1
        } else {
            rest + 1
        }
    }
}

/// `first_match` finds the first record with owner `id` exactly when one
/// exists.
pub proof fn lemma_first_match(ps: Seq<Project>, id: Identity)
    ensures
        first_match(ps, id) == -1 <==> !resolves(ps, id),
        resolves(ps, id) ==> {
            let j = first_match(ps, id);
            &&& 0 <= j < ps.len()
            &&& ps[j].project_owner == id
            &&& forall|k: int| 0 <= k < j ==> ps[k].project_owner != id
        },
    decreases ps.len(),
{
    if ps.len() == 0 {
    } else if ps[0].project_owner == id {
    } else {
        let rest = ps.subrange(1, ps.len() as int);
        lemma_first_match(rest, id);
        assert(forall|k: int| 0 <= k < rest.len() ==> rest[k] == ps[k + 1]);
        if resolves(ps, id) {
            let w = choose|w: int| 0 <= w < ps.len() && ps[w].project_owner == id;
            assert(rest[w - 1] == ps[w]);
            assert(resolves(rest, id));
        }
        if resolves(rest, id) {
            let w = choose|w: int| 0 <= w < rest.len() && rest[w].project_owner == id;
            assert(ps[w + 1] == rest[w]);
            assert(resolves(ps, id));
        }
        if resolves(ps, id) {
            let jr = first_match(rest, id);
            assert(ps[jr + 1] == rest[jr]);
            assert forall|k: int| 0 <= k < jr + 1 implies ps[k].project_owner != id by {
                if k > 0 {
                    assert(ps[k] == rest[k - 1]);
                }
            }
        }
    }
}

/// When `ps[j]` is the first record with owner `id`, `first_match` says so.
pub proof fn lemma_first_match_unique(ps: Seq<Project>, id: Identity, j: int)
    requires
        0 <= j < ps.len(),
        ps[j].project_owner == id,
        forall|k: int| 0 <= k < j ==> ps[k].project_owner != id,
    ensures
        first_match(ps, id) == j,
{
    lemma_first_match(ps, id);
    let f = first_match(ps, id);
    assert(resolves(ps, id));
    if f < j {
        assert(ps[f].project_owner != id);
    }
    if f > j {
        assert(ps[j].project_owner != id);
    }
}

/// The obstacle, if any, that the payee identity `id` puts in the way of a
/// distribution run: a record that cannot be found, a vote total of zero
/// under nonzero votes, or a share product beyond the payout range.
pub open spec fn payee_trouble(
    deposit: u64,
    total_votes: u64,
    ps: Seq<Project>,
    id: Identity,
) -> Option<SolquadError> {
    if !resolves(ps, id) {
        Some(SolquadError::ProjectNotFound)
    } else {
        let votes = ps[first_match(ps, id)].votes_count;
        if votes == 0 {
            None
        } else if total_votes == 0 {
            Some(SolquadError::DivisionByZero)
        } else if votes * deposit > u64::MAX {
            Some(SolquadError::ArithmeticOverflow)
        } else {
            None
        }
    }
}

/// The first obstacle a left-to-right walk of `payees` runs into, if any.
pub open spec fn first_trouble(
    deposit: u64,
    total_votes: u64,
    ps: Seq<Project>,
    payees: Seq<Identity>,
) -> Option<SolquadError>
    decreases payees.len(),
{
    if payees.len() == 0 {
        None
    } else if payee_trouble(deposit, total_votes, ps, payees[0]) is Some {
        payee_trouble(deposit, total_votes, ps, payees[0])
    } else {
        first_trouble(deposit, total_votes, ps, payees.subrange(1, payees.len() as int))
    }
}

/// True when a distribution run over `payees` against the records `ps` can
/// complete: every payee resolves and every share is computable.
pub open spec fn distribute_ok(
    deposit: u64,
    total_votes: u64,
    ps: Seq<Project>,
    payees: Seq<Identity>,
) -> bool {
    forall|i: int|
        0 <= i < payees.len() ==> payee_trouble(deposit, total_votes, ps, #[trigger] payees[i])
            is None
}

/// A walk over `payees` meets no obstacle exactly when no payee poses one.
pub proof fn lemma_first_trouble_none(
    deposit: u64,
    total_votes: u64,
    ps: Seq<Project>,
    payees: Seq<Identity>,
)
    ensures
        first_trouble(deposit, total_votes, ps, payees) is None <==> distribute_ok(
            deposit,
            total_votes,
            ps,
            payees,
        ),
    decreases payees.len(),
{
    if payees.len() == 0 {
    } else {
        let rest = payees.subrange(1, payees.len() as int);
        lemma_first_trouble_none(deposit, total_votes, ps, rest);
        assert(forall|k: int| 0 <= k < rest.len() ==> rest[k] == payees[k + 1]);
        if payee_trouble(deposit, total_votes, ps, payees[0]) is None {
            if distribute_ok(deposit, total_votes, ps, payees) {
                assert(forall|k: int|
                    0 <= k < rest.len() ==> payee_trouble(
                        deposit,
                        total_votes,
                        ps,
                        #[trigger] rest[k],
                    ) is None);
            }
            if distribute_ok(deposit, total_votes, ps, rest) {
                assert(forall|i: int|
                    0 < i < payees.len() ==> payee_trouble(
                        deposit,
                        total_votes,
                        ps,
                        #[trigger] payees[i],
                    ) == payee_trouble(deposit, total_votes, ps, rest[i - 1]));
            }
        }
    }
}

/// When the payees before index `i` pose no obstacle and `payees[i]` does,
/// the walk reports exactly that obstacle.
pub proof fn lemma_first_trouble_at(
    deposit: u64,
    total_votes: u64,
    ps: Seq<Project>,
    payees: Seq<Identity>,
    i: int,
)
    requires
        0 <= i < payees.len(),
        forall|k: int|
            0 <= k < i ==> payee_trouble(deposit, total_votes, ps, #[trigger] payees[k]) is None,
        payee_trouble(deposit, total_votes, ps, payees[i]) is Some,
    ensures
        first_trouble(deposit, total_votes, ps, payees) == payee_trouble(
            deposit,
            total_votes,
            ps,
            payees[i],
        ),
    decreases i,
{
    if i == 0 {
    } else {
        let rest = payees.subrange(1, payees.len() as int);
        assert(forall|k: int| 0 <= k < rest.len() ==> rest[k] == payees[k + 1]);
        assert(forall|k: int|
            0 <= k < i - 1 ==> payee_trouble(deposit, total_votes, ps, #[trigger] rest[k])
                is None);
        lemma_first_trouble_at(deposit, total_votes, ps, rest, i - 1);
    }
}

/// Fields of `post` other than the distributed payout agree with `pre`.
pub open spec fn same_except_payout(pre: Project, post: Project) -> bool {
    &&& post.project_owner == pre.project_owner
    &&& post.project_name == pre.project_name
    &&& post.votes_count == pre.votes_count
    &&& post.voter_amount == pre.voter_amount
    &&& post.in_pool == pre.in_pool
    &&& post.associated_pool == pre.associated_pool
}

/// What a distribution run leaves at index `j`: the first record of each
/// payee identity carries exactly its share, and every other record is
/// untouched.  Payees appearing twice thus have their share written once.
pub open spec fn payout_written(
    deposit: u64,
    total_votes: u64,
    payees: Seq<Identity>,
    pre: Seq<Project>,
    post: Seq<Project>,
    j: int,
) -> bool {
    if payees.contains(pre[j].project_owner) && first_with_owner(pre, j) {
        &&& same_except_payout(pre[j], post[j])
        &&& post[j].distributed_amt == share_of(pre[j].votes_count, deposit, total_votes)
    } else {
        post[j] == pre[j]
    }
}

/// The full effect of one successful distribution run over `payees`.
pub open spec fn distribute_post(
    deposit: u64,
    total_votes: u64,
    payees: Seq<Identity>,
    pre: Seq<Project>,
    post: Seq<Project>,
) -> bool {
    &&& post.len() == pre.len()
    &&& forall|j: int|
        0 <= j < pre.len() ==> #[trigger] payout_written(deposit, total_votes, payees, pre, post, j)
}

/// Membership in a prefix one element longer: the new element is the only
/// identity whose membership can change.
proof fn lemma_contains_extend(s: Seq<Identity>, i: int, x: Identity)
    requires
        0 <= i < s.len(),
    ensures
        s.subrange(0, i + 1).contains(x) <==> (s.subrange(0, i).contains(x) || s[i] == x),
{
    let shorter = s.subrange(0, i);
    let longer = s.subrange(0, i + 1);
    if longer.contains(x) {
        let w = choose|w: int| 0 <= w < longer.len() && longer[w] == x;
        if w < i {
            assert(shorter[w] == x);
        } else {
            assert(s[i] == x);
        }
    }
    if shorter.contains(x) {
        let w = choose|w: int| 0 <= w < shorter.len() && shorter[w] == x;
        assert(longer[w] == x);
    }
    if s[i] == x {
        assert(longer[i] == x);
    }
}

/// Computes each distinct payee's proportional share of the escrow deposit
/// and writes it into that payee's first project record in `projects`.
///
/// The payee list is walked in order; an identity appearing twice is
/// processed only at its first occurrence, so each project's payout is
/// written exactly once per run.  A payee with no record, a nonzero-vote
/// payee against a zero vote total, and a share product beyond the payout
/// range each abort the run with the matching error; the whole list is
/// validated before anything is written, so a failing run changes nothing.
/// The escrow and the pool are never mutated by a run.
pub fn distribute_escrow_amount(
    escrow: &Escrow,
    pool: &Pool,
    projects: &mut Vec<Project>,
) -> (result: Result<(), SolquadError>)
    ensures
        // The run completes exactly when no payee poses an obstacle.
        result is Ok <==> distribute_ok(
            escrow.creator_deposit_amount,
            pool.total_votes,
            old(projects)@,
            escrow.project_reciever_addresses@,
        ),
        // A failing run reports the first obstacle and changes nothing.
        result is Err ==> final(projects)@ == old(projects)@,
        result is Err ==> Some(result->Err_0) == first_trouble(
            escrow.creator_deposit_amount,
            pool.total_votes,
            old(projects)@,
            escrow.project_reciever_addresses@,
        ),
        // A completed run writes exactly the shares, exactly once each.
        result is Ok ==> distribute_post(
            escrow.creator_deposit_amount,
            pool.total_votes,
            escrow.project_reciever_addresses@,
            old(projects)@,
            final(projects)@,
        ),
        // A payee without votes is paid nothing, whatever the vote total.
        result is Ok ==> forall|j: int|
            (0 <= j < old(projects)@.len() && escrow.project_reciever_addresses@.contains(
                old(projects)@[j].project_owner,
            ) && #[trigger] first_with_owner(old(projects)@, j) && old(
                projects,
            )@[j].votes_count == 0) ==> final(projects)@[j].distributed_amt == 0,
{
    let deposit = escrow.creator_deposit_amount;
    let total_votes = pool.total_votes;
    let payee_count = escrow.project_reciever_addresses.len();
    let project_count = projects.len();

    // Validation pass: resolve every payee and check every share before
    // writing anything.
    let mut i: usize = 0;
    while i < payee_count
        invariant
            deposit == escrow.creator_deposit_amount,
            total_votes == pool.total_votes,
            payee_count == escrow.project_reciever_addresses@.len(),
            project_count == projects@.len(),
            projects@ == old(projects)@,
            i <= payee_count,
            forall|k: int|
                0 <= k < i ==> payee_trouble(
                    deposit,
                    total_votes,
                    projects@,
                    #[trigger] escrow.project_reciever_addresses@[k],
                ) is None,
        decreases payee_count - i,
    {
        let id = escrow.project_reciever_addresses[i];

        let mut j: usize = 0;
        while j < project_count
            invariant
                project_count == projects@.len(),
                j <= project_count,
                forall|k: int| 0 <= k < j ==> projects@[k].project_owner != id,
            ensures
                j <= project_count,
                forall|k: int| 0 <= k < j ==> projects@[k].project_owner != id,
                j < project_count ==> projects@[j as int].project_owner == id,
            decreases project_count - j,
        {
            if projects[j].project_owner == id {
                break ;
            }
            j = j + 1;
        }

        if j == project_count {
            proof {
                assert(!resolves(projects@, id));
                lemma_first_trouble_at(
                    deposit,
                    total_votes,
                    projects@,
                    escrow.project_reciever_addresses@,
                    i as int,
                );
            }
            return Err(SolquadError::ProjectNotFound);
        }

        proof {
            lemma_first_match_unique(projects@, id, j as int);
        }
        let votes = projects[j].votes_count;
        if votes != 0 {
            if total_votes == 0 {
                proof {
                    lemma_first_trouble_at(
                        deposit,
                        total_votes,
                        projects@,
                        escrow.project_reciever_addresses@,
                        i as int,
                    );
                }
                return Err(SolquadError::DivisionByZero);
            }
            proof {
                assert((votes as u128) * (deposit as u128) < u128::MAX) by (nonlinear_arith)
                    requires
                        (votes as u128) <= (u64::MAX as u128),
                        (deposit as u128) <= (u64::MAX as u128);
            }
            if votes as u128 * deposit as u128 > u64::MAX as u128 {
                proof {
                    lemma_first_trouble_at(
                        deposit,
                        total_votes,
                        projects@,
                        escrow.project_reciever_addresses@,
                        i as int,
                    );
                }
                return Err(SolquadError::ArithmeticOverflow);
            }
        }

        i = i + 1;
    }

    proof {
        lemma_first_trouble_none(
            deposit,
            total_votes,
            projects@,
            escrow.project_reciever_addresses@,
        );
    }

    // Application pass: walk the payees again, skip identities already
    // handled at an earlier position, and write each first record's share.
    let ghost pre = projects@;
    let mut i: usize = 0;
    while i < payee_count
        invariant
            deposit == escrow.creator_deposit_amount,
            total_votes == pool.total_votes,
            payee_count == escrow.project_reciever_addresses@.len(),
            project_count == projects@.len(),
            pre == old(projects)@,
            pre.len() == projects@.len(),
            i <= payee_count,
            distribute_ok(deposit, total_votes, pre, escrow.project_reciever_addresses@),
            forall|j: int|
                0 <= j < pre.len() ==> #[trigger] payout_written(
                    deposit,
                    total_votes,
                    escrow.project_reciever_addresses@.subrange(0, i as int),
                    pre,
                    projects@,
                    j,
                ),
        decreases payee_count - i,
    {
        let ghost prefix = escrow.project_reciever_addresses@.subrange(0, i as int);
        let ghost prefix_next = escrow.project_reciever_addresses@.subrange(0, i as int + 1);
        let id = escrow.project_reciever_addresses[i];

        let mut seen = false;
        let mut k: usize = 0;
        while k < i
            invariant
                i <= payee_count,
                payee_count == escrow.project_reciever_addresses@.len(),
                k <= i,
                seen == escrow.project_reciever_addresses@.subrange(0, k as int).contains(id),
            decreases i - k,
        {
            proof {
                lemma_contains_extend(escrow.project_reciever_addresses@, k as int, id);
            }
            if escrow.project_reciever_addresses[k] == id {
                seen = true;
            }
            k = k + 1;
        }

        proof {
            lemma_contains_extend(escrow.project_reciever_addresses@, i as int, id);
        }

        if seen {
            // This identity was already processed at an earlier position:
            // membership in the prefix does not change for any owner.
            proof {
                assert forall|j: int| 0 <= j < pre.len() implies #[trigger] payout_written(
                    deposit,
                    total_votes,
                    prefix_next,
                    pre,
                    projects@,
                    j,
                ) by {
                    assert(payout_written(deposit, total_votes, prefix, pre, projects@, j));
                    lemma_contains_extend(
                        escrow.project_reciever_addresses@,
                        i as int,
                        pre[j].project_owner,
                    );
                    assert(prefix_next.contains(pre[j].project_owner) <==> prefix.contains(
                        pre[j].project_owner,
                    ));
                }
            }
            i = i + 1;
            continue ;
        }

        let mut j: usize = 0;
        while j < project_count
            invariant
                project_count == projects@.len(),
                j <= project_count,
                forall|k2: int| 0 <= k2 < j ==> projects@[k2].project_owner != id,
            ensures
                j <= project_count,
                forall|k2: int| 0 <= k2 < j ==> projects@[k2].project_owner != id,
                j < project_count ==> projects@[j as int].project_owner == id,
            decreases project_count - j,
        {
            if projects[j].project_owner == id {
                break ;
            }
            j = j + 1;
        }

        // Validation established that every payee resolves, and the
        // application pass never changes an owner, so the scan cannot miss.
        proof {
            assert(payee_trouble(deposit, total_votes, pre, id) is None);
            assert forall|j2: int| 0 <= j2 < pre.len() implies projects@[j2].project_owner
                == pre[j2].project_owner && projects@[j2].votes_count == pre[j2].votes_count by {
                assert(payout_written(deposit, total_votes, prefix, pre, projects@, j2));
            }
            if j == project_count {
                assert(resolves(pre, id));
                let w = choose|w: int| 0 <= w < pre.len() && pre[w].project_owner == id;
                assert(projects@[w].project_owner == id);
                assert(false);
            }
        }

        proof {
            assert forall|k2: int| 0 <= k2 < j as int implies pre[k2].project_owner != id by {
                assert(projects@[k2].project_owner == pre[k2].project_owner);
            }
            assert(pre[j as int].project_owner == id);
            assert(first_with_owner(pre, j as int));
            lemma_first_match_unique(pre, id, j as int);
        }

        let votes = projects[j].votes_count;
        let share: u64 = if votes == 0 {
            0
        } else {
            ((votes as u128 * deposit as u128) / total_votes as u128) as u64
        };

        proof {
            assert(votes == pre[j as int].votes_count);
            assert(share == share_of(pre[j as int].votes_count, deposit, total_votes));
        }

        let ghost before = projects@;
        projects[j].distributed_amt = share;

        proof {
            assert forall|j2: int| 0 <= j2 < pre.len() implies #[trigger] payout_written(
                deposit,
                total_votes,
                prefix_next,
                pre,
                projects@,
                j2,
            ) by {
                assert(payout_written(deposit, total_votes, prefix, pre, before, j2));
                if j2 == j as int {
                    assert(before[j2] == pre[j2]);
                    assert(prefix_next.contains(pre[j2].project_owner));
                    assert(projects@[j2].distributed_amt == share);
                    assert(same_except_payout(pre[j2], projects@[j2]));
                } else {
                    assert(projects@[j2] == before[j2]);
                    if pre[j2].project_owner == id {
                        // Another record with the same owner is never the
                        // first one, so it stays untouched.
                        assert(pre[j as int].project_owner == pre[j2].project_owner);
                        assert(!first_with_owner(pre, j2));
                    } else {
                        lemma_contains_extend(
                            escrow.project_reciever_addresses@,
                            i as int,
                            pre[j2].project_owner,
                        );
                        assert(prefix_next.contains(pre[j2].project_owner) <==> prefix.contains(
                            pre[j2].project_owner,
                        ));
                    }
                }
            }
        }

        i = i + 1;
    }

    proof {
        assert(escrow.project_reciever_addresses@.subrange(0, payee_count as int) =~= escrow
            .project_reciever_addresses@);
        assert forall|j: int|
            (0 <= j < pre.len() && escrow.project_reciever_addresses@.contains(
                pre[j].project_owner,
            ) && #[trigger] first_with_owner(pre, j) && pre[j].votes_count
                == 0) implies projects@[j].distributed_amt == 0 by {
            assert(payout_written(
                deposit,
                total_votes,
                escrow.project_reciever_addresses@,
                pre,
                projects@,
                j,
            ));
        }
    }

    Ok(())
}

} // verus!
