//! The engine's cross-call guarantees, stated and proved once for all
//! inputs: conservation of the deposit under full vote coverage, idempotent
//! re-distribution, and indifference to duplicated payee entries.

use vstd::prelude::*;
use vstd::arithmetic::div_mod::lemma_fundamental_div_mod;
use vstd::arithmetic::div_mod::lemma_mod_division_less_than_divisor;
use crate::records::Identity;
use crate::records::Project;
use crate::distribution::distribute_ok;
use crate::distribution::distribute_post;
use crate::distribution::first_match;
use crate::distribution::first_with_owner;
use crate::distribution::payee_trouble;
use crate::distribution::payout_written;
use crate::distribution::resolves;
use crate::distribution::same_except_payout;
use crate::distribution::share_of;

verus! {

/// The sum of a sequence of vote counts.
pub open spec fn sum_votes(votes: Seq<u64>) -> int
    decreases votes.len(),
{
    if votes.len() == 0 {
        0
    } else {
        sum_votes(votes.drop_last()) + votes.last()
    }
}

/// The sum of the shares owed to a sequence of vote counts.
pub open spec fn sum_shares(votes: Seq<u64>, deposit: u64, total_votes: u64) -> int
    decreases votes.len(),
{
    if votes.len() == 0 {
        0
    } else {
        sum_shares(votes.drop_last(), deposit, total_votes) + share_of(
            votes.last(),
            deposit,
            total_votes,
        )
    }
}

/// Each share truncates away less than one `total_votes`-th of the deposit:
/// scaled by the vote total, the shares lose at most `total_votes - 1` per
/// entry against the exact proportional amounts.
proof fn lemma_sum_shares_bounds(votes: Seq<u64>, deposit: u64, total_votes: u64)
    requires
        total_votes > 0,
    ensures
        total_votes * sum_shares(votes, deposit, total_votes) <= deposit * sum_votes(votes),
        deposit * sum_votes(votes) - total_votes * sum_shares(votes, deposit, total_votes)
            <= votes.len() * (total_votes - 1),
    decreases votes.len(),
{
    if votes.len() == 0 {
        assert(deposit * sum_votes(votes) == 0 && total_votes * sum_shares(
            votes,
            deposit,
            total_votes,
        ) == 0 && votes.len() * (total_votes - 1) == 0) by (nonlinear_arith)
            requires
                sum_votes(votes) == 0,
                sum_shares(votes, deposit, total_votes) == 0,
                votes.len() == 0;
    } else {
        let shorter = votes.drop_last();
        lemma_sum_shares_bounds(shorter, deposit, total_votes);
        let v = votes.last();
        let sh = share_of(v, deposit, total_votes);
        if v == 0 {
            assert(v * deposit == 0);
            assert(sh == 0);
        } else {
            lemma_fundamental_div_mod(v * deposit, total_votes as int);
            lemma_mod_division_less_than_divisor(v * deposit, total_votes as int);
        }
        assert(0 <= v * deposit - total_votes * sh <= total_votes - 1) by (nonlinear_arith)
            requires
                total_votes > 0,
                v == 0 ==> sh == 0 && v * deposit == 0,
                v != 0 ==> v * deposit == total_votes * ((v * deposit) / (total_votes as int)) + (
                v * deposit) % (total_votes as int),
                v != 0 ==> 0 <= (v * deposit) % (total_votes as int) < total_votes,
                v != 0 ==> sh == (v * deposit) / (total_votes as int);
        let s_prev = sum_shares(shorter, deposit, total_votes);
        let v_prev = sum_votes(shorter);
        let n = votes.len() as int;
        let m = shorter.len() as int;
        assert(sum_shares(votes, deposit, total_votes) == s_prev + sh);
        assert(sum_votes(votes) == v_prev + v);
        assert(total_votes * (s_prev + sh) <= deposit * (v_prev + v)) by (nonlinear_arith)
            requires
                total_votes * s_prev <= deposit * v_prev,
                0 <= v * deposit - total_votes * sh;
        assert(deposit * (v_prev + v) - total_votes * (s_prev + sh) <= n * (total_votes - 1))
            by (nonlinear_arith)
            requires
                n == m + 1,
                deposit * v_prev - total_votes * s_prev <= m * (total_votes - 1),
                v * deposit - total_votes * sh <= total_votes - 1;
        assert(total_votes * sum_shares(votes, deposit, total_votes) == total_votes * (s_prev
            + sh));
        assert(deposit * sum_votes(votes) == deposit * (v_prev + v));
        assert(votes.len() * (total_votes - 1) == n * (total_votes - 1));
    }
}

/// Conservation under full vote coverage.  When `votes` lists the vote
/// counts of a pool's distinct payees, each payee holds at least one vote,
/// and those votes account for the whole vote total, the shares the engine
/// writes add up to the deposit, short of it by at most one unit per payee
/// beyond the first (integer truncation per project).
pub proof fn lemma_conservation(votes: Seq<u64>, deposit: u64, total_votes: u64)
    requires
        total_votes > 0,
        sum_votes(votes) == total_votes,
        forall|i: int| 0 <= i < votes.len() ==> #[trigger] votes[i] > 0,
    ensures
        sum_shares(votes, deposit, total_votes) <= deposit,
        deposit - sum_shares(votes, deposit, total_votes) <= votes.len() - 1,
{
    lemma_sum_shares_bounds(votes, deposit, total_votes);
    assert(votes.len() > 0);
    let ss = sum_shares(votes, deposit, total_votes);
    let n = votes.len() as int;
    assert(ss <= deposit && deposit - ss <= n - 1) by (nonlinear_arith)
        requires
            total_votes > 0,
            n >= 1,
            total_votes * ss <= deposit * (total_votes as int),
            deposit * (total_votes as int) - total_votes * ss <= n * (total_votes - 1);
}

/// The distributed payouts a sequence of records carries, summed.
pub open spec fn sum_distributed(ps: Seq<Project>) -> int
    decreases ps.len(),
{
    if ps.len() == 0 {
        0
    } else {
        sum_distributed(ps.drop_last()) + ps.last().distributed_amt
    }
}

/// The vote counts a sequence of records carries, in order.
pub open spec fn votes_of(ps: Seq<Project>) -> Seq<u64> {
    ps.map_values(|p: Project| p.votes_count)
}

/// When every record carries exactly the share owed to its vote count, the
/// payouts sum to the shares' sum.
proof fn lemma_sum_distributed_matches(
    post: Seq<Project>,
    votes: Seq<u64>,
    deposit: u64,
    total_votes: u64,
)
    requires
        post.len() == votes.len(),
        forall|j: int|
            0 <= j < post.len() ==> #[trigger] post[j].distributed_amt == share_of(
                votes[j],
                deposit,
                total_votes,
            ),
    ensures
        sum_distributed(post) == sum_shares(votes, deposit, total_votes),
    decreases post.len(),
{
    if post.len() == 0 {
    } else {
        let post_short = post.drop_last();
        let votes_short = votes.drop_last();
        assert forall|j: int|
            0 <= j < post_short.len() implies #[trigger] post_short[j].distributed_amt == share_of(
            votes_short[j],
            deposit,
            total_votes,
        ) by {
            assert(post_short[j] == post[j]);
            assert(votes_short[j] == votes[j]);
        }
        lemma_sum_distributed_matches(post_short, votes_short, deposit, total_votes);
        assert(post.last().distributed_amt == share_of(
            votes[post.len() - 1],
            deposit,
            total_votes,
        ));
    }
}

/// Conservation under full vote coverage, stated of a distribution run.
/// When the records handed to a completed run are exactly the pool's
/// distinct payees, each holds at least one vote, and their votes account
/// for the whole vote total, the payouts the run wrote add up to the
/// deposit, short of it by at most one unit per payee beyond the first
/// (integer truncation per project).
pub proof fn lemma_run_conserves_deposit(
    deposit: u64,
    total_votes: u64,
    payees: Seq<Identity>,
    pre: Seq<Project>,
    post: Seq<Project>,
)
    requires
        distribute_post(deposit, total_votes, payees, pre, post),
        forall|j: int, k: int|
            0 <= j < k < pre.len() ==> #[trigger] pre[j].project_owner != #[trigger] pre[k].project_owner,
        forall|j: int| 0 <= j < pre.len() ==> payees.contains(#[trigger] pre[j].project_owner),
        forall|j: int| 0 <= j < pre.len() ==> #[trigger] pre[j].votes_count > 0,
        total_votes > 0,
        sum_votes(votes_of(pre)) == total_votes,
    ensures
        sum_distributed(post) <= deposit,
        deposit - sum_distributed(post) <= pre.len() - 1,
{
    let votes = votes_of(pre);
    assert forall|j: int| 0 <= j < post.len() implies #[trigger] post[j].distributed_amt
        == share_of(votes[j], deposit, total_votes) by {
        assert(payout_written(deposit, total_votes, payees, pre, post, j));
        assert forall|k: int| 0 <= k < j implies pre[k].project_owner
            != pre[j].project_owner by {
            assert(pre[k].project_owner != pre[j].project_owner);
        }
        assert(first_with_owner(pre, j));
        assert(votes[j] == pre[j].votes_count);
    }
    lemma_sum_distributed_matches(post, votes, deposit, total_votes);
    assert forall|i: int| 0 <= i < votes.len() implies #[trigger] votes[i] > 0 by {
        assert(votes[i] == pre[i].votes_count);
    }
    lemma_conservation(votes, deposit, total_votes);
}

/// `first_match` looks only at owner identities, so two record sequences
/// whose owners agree pointwise resolve every identity alike.
proof fn lemma_first_match_same_owners(ps_a: Seq<Project>, ps_b: Seq<Project>, id: Identity)
    requires
        ps_a.len() == ps_b.len(),
        forall|j: int|
            0 <= j < ps_a.len() ==> #[trigger] ps_a[j].project_owner == ps_b[j].project_owner,
    ensures
        first_match(ps_a, id) == first_match(ps_b, id),
    decreases ps_a.len(),
{
    if ps_a.len() == 0 {
    } else {
        let rest_a = ps_a.subrange(1, ps_a.len() as int);
        let rest_b = ps_b.subrange(1, ps_b.len() as int);
        assert(forall|k: int| 0 <= k < rest_a.len() ==> rest_a[k] == ps_a[k + 1]);
        assert(forall|k: int| 0 <= k < rest_b.len() ==> rest_b[k] == ps_b[k + 1]);
        assert forall|k: int| 0 <= k < rest_a.len() implies #[trigger] rest_a[k].project_owner
            == rest_b[k].project_owner by {
            assert(ps_a[k + 1].project_owner == ps_b[k + 1].project_owner);
        }
        lemma_first_match_same_owners(rest_a, rest_b, id);
    }
}

/// A completed distribution run touches no owner and no vote count, so a
/// pool that could be distributed once can be distributed again at once.
pub proof fn lemma_redistribution_succeeds(
    deposit: u64,
    total_votes: u64,
    payees: Seq<Identity>,
    pre: Seq<Project>,
    post: Seq<Project>,
)
    requires
        distribute_ok(deposit, total_votes, pre, payees),
        distribute_post(deposit, total_votes, payees, pre, post),
    ensures
        distribute_ok(deposit, total_votes, post, payees),
{
    assert forall|j: int| 0 <= j < pre.len() implies #[trigger] post[j].project_owner
        == pre[j].project_owner && post[j].votes_count == pre[j].votes_count by {
        assert(payout_written(deposit, total_votes, payees, pre, post, j));
    }
    assert forall|i: int|
        0 <= i < payees.len() implies payee_trouble(
        deposit,
        total_votes,
        post,
        #[trigger] payees[i],
    ) is None by {
        let id = payees[i];
        assert(payee_trouble(deposit, total_votes, pre, id) is None);
        lemma_first_match_same_owners(pre, post, id);
        crate::distribution::lemma_first_match(pre, id);
        crate::distribution::lemma_first_match(post, id);
        assert(resolves(pre, id) <==> resolves(post, id));
        if resolves(post, id) {
            assert(post[first_match(post, id)].votes_count == pre[first_match(pre, id)].votes_count);
        }
    }
}

/// Idempotent re-distribution.  Two successive runs over the same payees
/// with no intervening vote change leave the records of the first run
/// exactly as they were: every payout is simply rewritten with its own
/// value.
pub proof fn lemma_redistribution_idempotent(
    deposit: u64,
    total_votes: u64,
    payees: Seq<Identity>,
    ps0: Seq<Project>,
    ps1: Seq<Project>,
    ps2: Seq<Project>,
)
    requires
        distribute_post(deposit, total_votes, payees, ps0, ps1),
        distribute_post(deposit, total_votes, payees, ps1, ps2),
    ensures
        ps2 == ps1,
{
    assert forall|j: int| 0 <= j < ps1.len() implies ps2[j] == ps1[j] by {
        assert(payout_written(deposit, total_votes, payees, ps0, ps1, j));
        assert(payout_written(deposit, total_votes, payees, ps1, ps2, j));
        assert(ps1[j].project_owner == ps0[j].project_owner);
        assert forall|k: int| 0 <= k < ps1.len() implies #[trigger] ps1[k].project_owner
            == ps0[k].project_owner by {
            assert(payout_written(deposit, total_votes, payees, ps0, ps1, k));
        }
        if first_with_owner(ps0, j) {
            assert forall|k: int| 0 <= k < j implies ps1[k].project_owner
                != ps1[j].project_owner by {
                assert(ps1[k].project_owner == ps0[k].project_owner);
            }
            assert(first_with_owner(ps1, j));
        }
        if !first_with_owner(ps0, j) {
            let k = choose|k: int| 0 <= k < j && ps0[k].project_owner == ps0[j].project_owner;
            assert(ps1[k].project_owner == ps1[j].project_owner);
            assert(!first_with_owner(ps1, j));
        }
        if payees.contains(ps1[j].project_owner) && first_with_owner(ps1, j) {
            assert(same_except_payout(ps1[j], ps2[j]));
            assert(ps1[j].votes_count == ps0[j].votes_count);
            assert(ps2[j].distributed_amt == share_of(ps0[j].votes_count, deposit, total_votes));
            assert(ps1[j].distributed_amt == share_of(ps0[j].votes_count, deposit, total_votes));
            assert(ps2[j] =~= ps1[j]);
        }
    }
    assert(ps2 =~= ps1);
}

/// Exactly-once processing.  The records a run leaves behind depend only on
/// which identities the payee list names, never on how often or in what
/// order it names them: a duplicated payee is paid exactly once, not twice.
pub proof fn lemma_duplicate_payees_harmless(
    deposit: u64,
    total_votes: u64,
    payees_a: Seq<Identity>,
    payees_b: Seq<Identity>,
    pre: Seq<Project>,
    post_a: Seq<Project>,
    post_b: Seq<Project>,
)
    requires
        forall|id: Identity| payees_a.contains(id) <==> payees_b.contains(id),
        distribute_post(deposit, total_votes, payees_a, pre, post_a),
        distribute_post(deposit, total_votes, payees_b, pre, post_b),
    ensures
        post_a == post_b,
{
    assert forall|j: int| 0 <= j < pre.len() implies post_a[j] == post_b[j] by {
        assert(payout_written(deposit, total_votes, payees_a, pre, post_a, j));
        assert(payout_written(deposit, total_votes, payees_b, pre, post_b, j));
        assert(payees_a.contains(pre[j].project_owner) <==> payees_b.contains(
            pre[j].project_owner,
        ));
        if payees_a.contains(pre[j].project_owner) && first_with_owner(pre, j) {
            assert(post_a[j] =~= post_b[j]);
        }
    }
    assert(post_a =~= post_b);
}

} // verus!
