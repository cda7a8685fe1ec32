use solquad::add_project_to_pool;
use solquad::initialize_escrow;
use solquad::initialize_pool;
use solquad::initialize_project;
use solquad::vote_for_project;
use solquad::SolquadError;

const CREATOR: u64 = 1;
const POOL_CREATOR: u64 = 2;
const POOL_A: u64 = 100;
const POOL_B: u64 = 101;
const OWNER_A: u64 = 10;
const OWNER_B: u64 = 11;

#[test]
fn fresh_escrow_is_empty() {
    let escrow = initialize_escrow(CREATOR, 1000);
    assert_eq!(escrow.escrow_creator, CREATOR);
    assert_eq!(escrow.creator_deposit_amount, 1000);
    assert_eq!(escrow.total_projects, 0);
    assert!(escrow.project_reciever_addresses.is_empty());
}

#[test]
fn fresh_pool_has_no_votes() {
    let pool = initialize_pool(POOL_CREATOR);
    assert_eq!(pool.pool_creator, POOL_CREATOR);
    assert!(pool.projects.is_empty());
    assert_eq!(pool.total_projects, 0);
    assert_eq!(pool.total_votes, 0);
}

#[test]
fn fresh_project_is_unbound() {
    let project = initialize_project(OWNER_A, String::from("alpha"));
    assert_eq!(project.project_owner, OWNER_A);
    assert_eq!(project.project_name, "alpha");
    assert_eq!(project.votes_count, 0);
    assert_eq!(project.voter_amount, 0);
    assert_eq!(project.distributed_amt, 0);
    assert!(!project.in_pool);
    assert_eq!(project.associated_pool, None);
}

#[test]
fn binding_mirrors_owner_into_both_lists() {
    let mut escrow = initialize_escrow(CREATOR, 1000);
    let mut pool = initialize_pool(POOL_CREATOR);
    let mut project = initialize_project(OWNER_A, String::from("alpha"));

    let result = add_project_to_pool(&mut escrow, &mut pool, POOL_A, &mut project);
    assert_eq!(result, Ok(()));
    assert_eq!(pool.projects, vec![OWNER_A]);
    assert_eq!(pool.total_projects, 1);
    assert_eq!(escrow.project_reciever_addresses, vec![OWNER_A]);
    assert_eq!(escrow.total_projects, 1);
    assert!(project.in_pool);
    assert_eq!(project.associated_pool, Some(POOL_A));
}

#[test]
fn rebinding_same_pool_is_a_noop_success() {
    let mut escrow = initialize_escrow(CREATOR, 1000);
    let mut pool = initialize_pool(POOL_CREATOR);
    let mut project = initialize_project(OWNER_A, String::from("alpha"));

    assert_eq!(add_project_to_pool(&mut escrow, &mut pool, POOL_A, &mut project), Ok(()));
    let members_before = pool.projects.clone();
    let payees_before = escrow.project_reciever_addresses.clone();

    let second = add_project_to_pool(&mut escrow, &mut pool, POOL_A, &mut project);
    assert_eq!(second, Ok(()));
    assert_eq!(pool.projects, members_before);
    assert_eq!(pool.projects.len(), 1);
    assert_eq!(escrow.project_reciever_addresses, payees_before);
    assert_eq!(pool.total_projects, 1);
    assert_eq!(escrow.total_projects, 1);
}

#[test]
fn binding_to_a_second_pool_is_rejected() {
    let mut escrow = initialize_escrow(CREATOR, 1000);
    let mut pool_a = initialize_pool(POOL_CREATOR);
    let mut pool_b = initialize_pool(POOL_CREATOR);
    let mut project = initialize_project(OWNER_A, String::from("alpha"));

    assert_eq!(add_project_to_pool(&mut escrow, &mut pool_a, POOL_A, &mut project), Ok(()));
    let result = add_project_to_pool(&mut escrow, &mut pool_b, POOL_B, &mut project);
    assert_eq!(result, Err(SolquadError::AlreadyBound));
    assert!(pool_b.projects.is_empty());
    assert_eq!(escrow.project_reciever_addresses, vec![OWNER_A]);
    assert_eq!(project.associated_pool, Some(POOL_A));
}

#[test]
fn binding_overflows_full_member_counter() {
    let mut escrow = initialize_escrow(CREATOR, 1000);
    let mut pool = initialize_pool(POOL_CREATOR);
    let mut project = initialize_project(OWNER_A, String::from("alpha"));
    pool.total_projects = u8::MAX;

    let result = add_project_to_pool(&mut escrow, &mut pool, POOL_A, &mut project);
    assert_eq!(result, Err(SolquadError::ArithmeticOverflow));
    assert!(pool.projects.is_empty());
    assert!(escrow.project_reciever_addresses.is_empty());
    assert!(!project.in_pool);
}

#[test]
fn vote_credits_member_and_pool() {
    let mut escrow = initialize_escrow(CREATOR, 1000);
    let mut pool = initialize_pool(POOL_CREATOR);
    let mut project = initialize_project(OWNER_A, String::from("alpha"));
    assert_eq!(add_project_to_pool(&mut escrow, &mut pool, POOL_A, &mut project), Ok(()));

    assert_eq!(vote_for_project(&mut pool, &mut project, 25), Ok(()));
    assert_eq!(project.votes_count, 1);
    assert_eq!(project.voter_amount, 25);
    assert_eq!(pool.total_votes, 1);

    assert_eq!(vote_for_project(&mut pool, &mut project, 5), Ok(()));
    assert_eq!(project.votes_count, 2);
    assert_eq!(project.voter_amount, 30);
    assert_eq!(pool.total_votes, 2);
}

#[test]
fn vote_for_non_member_still_counts_the_event() {
    let mut escrow = initialize_escrow(CREATOR, 1000);
    let mut pool = initialize_pool(POOL_CREATOR);
    let mut member = initialize_project(OWNER_A, String::from("alpha"));
    let mut outsider = initialize_project(OWNER_B, String::from("beta"));
    assert_eq!(add_project_to_pool(&mut escrow, &mut pool, POOL_A, &mut member), Ok(()));

    let result = vote_for_project(&mut pool, &mut outsider, 40);
    assert_eq!(result, Ok(()));
    assert_eq!(pool.total_votes, 1);
    assert_eq!(outsider.votes_count, 0);
    assert_eq!(outsider.voter_amount, 0);
}

#[test]
fn vote_overflow_on_event_counter_is_rejected() {
    let mut escrow = initialize_escrow(CREATOR, 1000);
    let mut pool = initialize_pool(POOL_CREATOR);
    let mut project = initialize_project(OWNER_A, String::from("alpha"));
    assert_eq!(add_project_to_pool(&mut escrow, &mut pool, POOL_A, &mut project), Ok(()));
    pool.total_votes = u64::MAX;

    let result = vote_for_project(&mut pool, &mut project, 1);
    assert_eq!(result, Err(SolquadError::ArithmeticOverflow));
    assert_eq!(pool.total_votes, u64::MAX);
    assert_eq!(project.votes_count, 0);
    assert_eq!(project.voter_amount, 0);
}

#[test]
fn vote_overflow_on_weight_sum_is_rejected() {
    let mut escrow = initialize_escrow(CREATOR, 1000);
    let mut pool = initialize_pool(POOL_CREATOR);
    let mut project = initialize_project(OWNER_A, String::from("alpha"));
    assert_eq!(add_project_to_pool(&mut escrow, &mut pool, POOL_A, &mut project), Ok(()));
    project.voter_amount = u64::MAX - 9;

    let result = vote_for_project(&mut pool, &mut project, 10);
    assert_eq!(result, Err(SolquadError::ArithmeticOverflow));
    assert_eq!(project.voter_amount, u64::MAX - 9);
    assert_eq!(project.votes_count, 0);
    assert_eq!(pool.total_votes, 0);

    assert_eq!(vote_for_project(&mut pool, &mut project, 9), Ok(()));
    assert_eq!(project.voter_amount, u64::MAX);
    assert_eq!(project.votes_count, 1);
    assert_eq!(pool.total_votes, 1);
}
