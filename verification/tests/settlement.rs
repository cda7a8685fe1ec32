use solquad::add_project_to_pool;
use solquad::distribute_escrow_amount;
use solquad::initialize_escrow;
use solquad::initialize_pool;
use solquad::initialize_project;
use solquad::vote_for_project;
use solquad::Escrow;
use solquad::Pool;
use solquad::Project;
use solquad::SolquadError;

const CREATOR: u64 = 1;
const POOL_CREATOR: u64 = 2;
const POOL_ID: u64 = 100;
const OWNER_A: u64 = 10;
const OWNER_B: u64 = 11;
const OWNER_C: u64 = 12;

fn pool_with_members(
    deposit: u64,
    names: &[(u64, &str)],
) -> (Escrow, Pool, Vec<Project>) {
    let mut escrow = initialize_escrow(CREATOR, deposit);
    let mut pool = initialize_pool(POOL_CREATOR);
    let mut projects = Vec::new();
    for (owner, name) in names {
        let mut project = initialize_project(*owner, String::from(*name));
        assert_eq!(add_project_to_pool(&mut escrow, &mut pool, POOL_ID, &mut project), Ok(()));
        projects.push(project);
    }
    (escrow, pool, projects)
}

#[test]
fn three_to_one_votes_split_the_deposit() {
    let (escrow, mut pool, mut projects) =
        pool_with_members(1000, &[(OWNER_A, "alpha"), (OWNER_B, "beta")]);
    for _ in 0..3 {
        assert_eq!(vote_for_project(&mut pool, &mut projects[0], 10), Ok(()));
    }
    assert_eq!(vote_for_project(&mut pool, &mut projects[1], 10), Ok(()));
    assert_eq!(pool.total_votes, 4);

    assert_eq!(distribute_escrow_amount(&escrow, &pool, &mut projects), Ok(()));
    assert_eq!(projects[0].distributed_amt, 750);
    assert_eq!(projects[1].distributed_amt, 250);
}

#[test]
fn zero_vote_member_gets_nothing() {
    let (escrow, mut pool, mut projects) =
        pool_with_members(100, &[(OWNER_A, "alpha"), (OWNER_C, "gamma")]);
    // Only the first member collects votes; the vote total is nonzero.
    assert_eq!(vote_for_project(&mut pool, &mut projects[0], 10), Ok(()));
    assert_eq!(vote_for_project(&mut pool, &mut projects[0], 10), Ok(()));

    assert_eq!(distribute_escrow_amount(&escrow, &pool, &mut projects), Ok(()));
    assert_eq!(projects[1].distributed_amt, 0);
    assert_eq!(projects[0].distributed_amt, 100);
}

#[test]
fn zero_vote_total_distributes_nothing() {
    let (escrow, pool, mut projects) =
        pool_with_members(100, &[(OWNER_A, "alpha"), (OWNER_B, "beta")]);
    assert_eq!(distribute_escrow_amount(&escrow, &pool, &mut projects), Ok(()));
    assert_eq!(projects[0].distributed_amt, 0);
    assert_eq!(projects[1].distributed_amt, 0);
}

#[test]
fn conservation_with_full_vote_coverage() {
    let (escrow, mut pool, mut projects) = pool_with_members(
        100,
        &[(OWNER_A, "alpha"), (OWNER_B, "beta"), (OWNER_C, "gamma")],
    );
    for project in projects.iter_mut() {
        assert_eq!(vote_for_project(&mut pool, project, 1), Ok(()));
    }
    assert_eq!(pool.total_votes, 3);

    assert_eq!(distribute_escrow_amount(&escrow, &pool, &mut projects), Ok(()));
    let paid: u64 = projects.iter().map(|p| p.distributed_amt).sum();
    // 100 / 3 truncates to 33 per member: the remainder stays in escrow and
    // is bounded by one unit per payee beyond the first.
    assert_eq!(paid, 99);
    assert!(paid <= 100);
    assert!(100 - paid <= projects.len() as u64 - 1);
}

#[test]
fn redistribution_is_idempotent() {
    let (escrow, mut pool, mut projects) =
        pool_with_members(1000, &[(OWNER_A, "alpha"), (OWNER_B, "beta")]);
    assert_eq!(vote_for_project(&mut pool, &mut projects[0], 10), Ok(()));
    assert_eq!(vote_for_project(&mut pool, &mut projects[1], 10), Ok(()));

    assert_eq!(distribute_escrow_amount(&escrow, &pool, &mut projects), Ok(()));
    let first_run: Vec<u64> = projects.iter().map(|p| p.distributed_amt).collect();
    assert_eq!(distribute_escrow_amount(&escrow, &pool, &mut projects), Ok(()));
    let second_run: Vec<u64> = projects.iter().map(|p| p.distributed_amt).collect();
    assert_eq!(first_run, second_run);
    assert_eq!(first_run, vec![500, 500]);
}

#[test]
fn duplicated_payee_is_processed_once() {
    let (mut escrow, mut pool, mut projects) =
        pool_with_members(1000, &[(OWNER_A, "alpha"), (OWNER_B, "beta")]);
    // An erroneous double entry in the payee list must not double the payout.
    escrow.project_reciever_addresses.push(OWNER_A);
    for _ in 0..3 {
        assert_eq!(vote_for_project(&mut pool, &mut projects[0], 10), Ok(()));
    }
    assert_eq!(vote_for_project(&mut pool, &mut projects[1], 10), Ok(()));

    assert_eq!(distribute_escrow_amount(&escrow, &pool, &mut projects), Ok(()));
    assert_eq!(projects[0].distributed_amt, 750);
    assert_eq!(projects[1].distributed_amt, 250);
}

#[test]
fn unresolved_payee_aborts_without_writing() {
    let (mut escrow, mut pool, mut projects) =
        pool_with_members(1000, &[(OWNER_A, "alpha"), (OWNER_B, "beta")]);
    assert_eq!(vote_for_project(&mut pool, &mut projects[0], 10), Ok(()));
    // A payee identity with no project record anywhere.
    escrow.project_reciever_addresses.insert(0, OWNER_C);

    let result = distribute_escrow_amount(&escrow, &pool, &mut projects);
    assert_eq!(result, Err(SolquadError::ProjectNotFound));
    assert_eq!(projects[0].distributed_amt, 0);
    assert_eq!(projects[1].distributed_amt, 0);
}

#[test]
fn votes_without_vote_total_abort() {
    let (escrow, pool, mut projects) = pool_with_members(1000, &[(OWNER_A, "alpha")]);
    // A contradictory snapshot: the project holds votes the pool never saw.
    projects[0].votes_count = 5;

    let result = distribute_escrow_amount(&escrow, &pool, &mut projects);
    assert_eq!(result, Err(SolquadError::DivisionByZero));
    assert_eq!(projects[0].distributed_amt, 0);
}

#[test]
fn oversized_share_product_aborts() {
    let (escrow, mut pool, mut projects) =
        pool_with_members(u64::MAX, &[(OWNER_A, "alpha"), (OWNER_B, "beta")]);
    assert_eq!(vote_for_project(&mut pool, &mut projects[0], 10), Ok(()));
    assert_eq!(vote_for_project(&mut pool, &mut projects[1], 10), Ok(()));
    // votes * deposit == 1 * u64::MAX fits; force 2 * u64::MAX on one payee.
    projects[0].votes_count = 2;

    let result = distribute_escrow_amount(&escrow, &pool, &mut projects);
    assert_eq!(result, Err(SolquadError::ArithmeticOverflow));
    assert_eq!(projects[0].distributed_amt, 0);
    assert_eq!(projects[1].distributed_amt, 0);
}

#[test]
fn distribution_touches_no_other_fields() {
    let (escrow, mut pool, mut projects) =
        pool_with_members(1000, &[(OWNER_A, "alpha"), (OWNER_B, "beta")]);
    assert_eq!(vote_for_project(&mut pool, &mut projects[0], 7), Ok(()));
    let payees_before = escrow.project_reciever_addresses.clone();
    let votes_before = pool.total_votes;

    assert_eq!(distribute_escrow_amount(&escrow, &pool, &mut projects), Ok(()));
    assert_eq!(escrow.project_reciever_addresses, payees_before);
    assert_eq!(escrow.creator_deposit_amount, 1000);
    assert_eq!(pool.total_votes, votes_before);
    assert_eq!(projects[0].votes_count, 1);
    assert_eq!(projects[0].voter_amount, 7);
    assert_eq!(projects[0].project_name, "alpha");
    assert!(projects[0].in_pool);
}
