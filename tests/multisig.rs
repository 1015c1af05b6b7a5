use multi_sig_smart_contract::{
    add_user, approve, are_valid_roles, check_role, execute, give_numeric_value_for_role,
    has_permission, initialize_project, mask_has_role, prepare_execute, propose, remove_user,
    update_permission, update_threshold, ErrorCode, Key, MultiSigAccount, Proposition, Role,
    TransactionAccount, UserInfo, ALL_ROLES, APPROVER_POSITION, EXECUTOR_POSITION, MAX_ACCOUNTS,
    MAX_DATA_LEN, MAX_USERS, OWNER_POSITION, PROPOSER_POSITION,
};

fn key(n: u8) -> Key {
    Key::new([n; 32])
}

fn users_of(ms: &MultiSigAccount) -> Vec<([u8; 32], u8)> {
    ms.users.iter().map(|u| (u.key.bytes, u.roles)).collect()
}

fn votes_of(p: &Proposition) -> Vec<([u8; 32], bool)> {
    p.signers.iter().map(|v| (v.key.bytes, v.favour)).collect()
}

fn registry() -> MultiSigAccount {
    initialize_project("org-1".to_string(), key(1), key(200), 7, 9)
}

fn account(n: u8, is_signer: bool, is_writable: bool) -> TransactionAccount {
    TransactionAccount { pubkey: key(n), is_signer, is_writable }
}

fn new_proposal(ms: &mut MultiSigAccount) -> Proposition {
    propose(ms, key(1), key(50), vec![account(60, false, true)], vec![1, 2, 3], 4).unwrap()
}

#[test]
fn encode_all_roles_is_fifteen() {
    assert_eq!(give_numeric_value_for_role(vec![3, 0, 1, 2]), 15);
    assert_eq!(ALL_ROLES, 15);
}

#[test]
fn encode_single_positions() {
    assert_eq!(give_numeric_value_for_role(vec![PROPOSER_POSITION]), 1);
    assert_eq!(give_numeric_value_for_role(vec![APPROVER_POSITION]), 2);
    assert_eq!(give_numeric_value_for_role(vec![EXECUTOR_POSITION]), 4);
    assert_eq!(give_numeric_value_for_role(vec![OWNER_POSITION]), 8);
    assert_eq!(give_numeric_value_for_role(vec![7]), 128);
}

#[test]
fn encode_empty_is_zero() {
    assert_eq!(give_numeric_value_for_role(vec![]), 0);
}

#[test]
fn encode_ignores_order_and_repetition() {
    let a = give_numeric_value_for_role(vec![3, 1, 1, 0]);
    let b = give_numeric_value_for_role(vec![0, 1, 3]);
    let c = give_numeric_value_for_role(vec![1, 3, 0, 3, 0]);
    assert_eq!(a, 11);
    assert_eq!(a, b);
    assert_eq!(b, c);
}

#[test]
fn validate_accepts_the_four_positions() {
    assert!(are_valid_roles(&vec![0, 1, 2, 3]));
    assert!(are_valid_roles(&vec![2]));
    assert!(are_valid_roles(&vec![3, 3, 0]));
    assert!(are_valid_roles(&vec![]));
}

#[test]
fn validate_rejects_other_positions() {
    assert!(!are_valid_roles(&vec![4]));
    assert!(!are_valid_roles(&vec![0, 1, 9]));
    assert!(!are_valid_roles(&vec![255, 0]));
    assert!(!are_valid_roles(&vec![7]));
}

#[test]
fn mask_bit_test() {
    assert!(mask_has_role(15, OWNER_POSITION));
    assert!(mask_has_role(2, APPROVER_POSITION));
    assert!(!mask_has_role(2, PROPOSER_POSITION));
    assert!(!mask_has_role(8, EXECUTOR_POSITION));
    assert!(mask_has_role(128, 7));
}

#[test]
fn role_positions_round_trip() {
    for role in [Role::Proposer, Role::Approver, Role::Executor, Role::Owner] {
        assert_eq!(Role::from_position(role.position()), Some(role));
    }
    assert_eq!(Role::Owner.position(), 3);
    assert_eq!(Role::from_position(4), None);
}

#[test]
fn key_equality_compares_all_bytes() {
    let mut b = [5u8; 32];
    assert!(key(5) == Key::new(b));
    b[31] = 6;
    assert!(key(5) != Key::new(b));
}

#[test]
fn bootstrap_grants_all_roles() {
    let ms = registry();
    assert_eq!(users_of(&ms), vec![([1u8; 32], 15)]);
    assert_eq!(ms.threshold, 1);
    assert_eq!(ms.transaction_count, 0);
    assert_eq!(ms.company_id, "org-1");
    assert!(ms.treasury == key(200));
    assert_eq!((ms.treasury_bump, ms.bump), (7, 9));
    assert!(ms.is_user(&key(1)));
    assert!(ms.is_owner(&key(1)));
    assert!(ms.is_proposer(&key(1)));
    assert!(ms.is_approver(&key(1)));
    assert!(ms.is_executor(&key(1)));
    assert!(!ms.is_user(&key(2)));
    assert!(ms.is_valid());
    assert_eq!(ms.approver_count(), 1);
}

#[test]
fn role_queries_follow_the_mask() {
    let mut ms = registry();
    add_user(&mut ms, key(1), key(2), vec![APPROVER_POSITION]).unwrap();
    assert!(ms.is_user(&key(2)));
    assert!(ms.is_approver(&key(2)));
    assert!(!ms.is_owner(&key(2)));
    assert!(!ms.is_proposer(&key(2)));
    assert!(!ms.is_executor(&key(2)));
    assert!(has_permission(&key(2), APPROVER_POSITION, &ms));
    assert!(!has_permission(&key(3), APPROVER_POSITION, &ms));
    let user = UserInfo { key: key(2), roles: 2 };
    assert!(check_role(&user, APPROVER_POSITION));
    assert!(!check_role(&user, OWNER_POSITION));
}

#[test]
fn add_user_appends() {
    let mut ms = registry();
    assert_eq!(add_user(&mut ms, key(1), key(2), vec![1, 2]), Ok(()));
    assert_eq!(users_of(&ms), vec![([1u8; 32], 15), ([2u8; 32], 6)]);
    assert_eq!(ms.threshold, 1);
    assert_eq!(ms.approver_count(), 2);
}

#[test]
fn add_user_already_exists() {
    let mut ms = registry();
    add_user(&mut ms, key(1), key(2), vec![1]).unwrap();
    let before = users_of(&ms);
    assert_eq!(add_user(&mut ms, key(1), key(2), vec![0]), Err(ErrorCode::UserAlreadyExists));
    assert_eq!(users_of(&ms), before);
}

#[test]
fn add_user_unsupported_role() {
    let mut ms = registry();
    assert_eq!(add_user(&mut ms, key(1), key(2), vec![1, 4]), Err(ErrorCode::UnsupportedRole));
    assert_eq!(users_of(&ms), vec![([1u8; 32], 15)]);
}

#[test]
fn add_user_requires_owner() {
    let mut ms = registry();
    add_user(&mut ms, key(1), key(2), vec![0, 1, 2]).unwrap();
    assert_eq!(add_user(&mut ms, key(2), key(3), vec![1]), Err(ErrorCode::UserNotAuthorized));
    assert_eq!(add_user(&mut ms, key(9), key(3), vec![1]), Err(ErrorCode::UserNotAuthorized));
    assert_eq!(ms.users.len(), 2);
}

#[test]
fn add_user_stops_at_the_cap() {
    let mut ms = registry();
    for n in 2..(MAX_USERS as u8 + 1) {
        add_user(&mut ms, key(1), key(n), vec![1]).unwrap();
    }
    assert_eq!(ms.users.len(), MAX_USERS);
    assert_eq!(add_user(&mut ms, key(1), key(100), vec![1]), Err(ErrorCode::MaxUsersReached));
    assert_eq!(ms.users.len(), MAX_USERS);
    assert!(ms.is_valid());
}

#[test]
fn remove_user_removes_and_keeps_order() {
    let mut ms = registry();
    add_user(&mut ms, key(1), key(2), vec![1]).unwrap();
    add_user(&mut ms, key(1), key(3), vec![0]).unwrap();
    assert_eq!(remove_user(&mut ms, key(1), key(2)), Ok(()));
    assert_eq!(users_of(&ms), vec![([1u8; 32], 15), ([3u8; 32], 1)]);
    assert_eq!(ms.threshold, 1);
}

#[test]
fn remove_user_not_found() {
    let mut ms = registry();
    assert_eq!(remove_user(&mut ms, key(1), key(2)), Err(ErrorCode::UserDoesNotExists));
    assert_eq!(users_of(&ms), vec![([1u8; 32], 15)]);
}

#[test]
fn remove_user_requires_owner() {
    let mut ms = registry();
    add_user(&mut ms, key(1), key(2), vec![1]).unwrap();
    assert_eq!(remove_user(&mut ms, key(2), key(1)), Err(ErrorCode::UserNotAuthorized));
    assert_eq!(ms.users.len(), 2);
}

#[test]
fn remove_user_clamps_threshold() {
    let mut ms = registry();
    add_user(&mut ms, key(1), key(2), vec![1]).unwrap();
    add_user(&mut ms, key(1), key(3), vec![1]).unwrap();
    update_threshold(&mut ms, key(1), 3).unwrap();
    remove_user(&mut ms, key(1), key(3)).unwrap();
    assert_eq!(ms.threshold, 2);
    assert_eq!(ms.approver_count(), 2);
}

#[test]
fn remove_user_never_raises_threshold() {
    let mut ms = registry();
    add_user(&mut ms, key(1), key(2), vec![1]).unwrap();
    add_user(&mut ms, key(1), key(3), vec![1]).unwrap();
    add_user(&mut ms, key(1), key(4), vec![0]).unwrap();
    remove_user(&mut ms, key(1), key(4)).unwrap();
    assert_eq!(ms.threshold, 1);
    assert!(ms.threshold as usize <= ms.approver_count());
}

#[test]
fn removing_only_approver_clamps_to_zero() {
    let mut ms = registry();
    add_user(&mut ms, key(1), key(2), vec![APPROVER_POSITION]).unwrap();
    update_permission(&mut ms, key(1), key(1), vec![0, 2, 3]).unwrap();
    assert_eq!(ms.approver_count(), 1);
    assert_eq!(ms.threshold, 1);
    assert_eq!(remove_user(&mut ms, key(1), key(2)), Ok(()));
    assert_eq!(ms.approver_count(), 0);
    assert_eq!(ms.threshold, 0);

    let mut p = new_proposal(&mut ms);
    assert_eq!(p.favour_count(), 0);
    assert!(prepare_execute(&ms, &p, key(1)).is_ok());
    assert_eq!(execute(&ms, &mut p, key(1), true), Ok(()));
    assert!(p.did_execute);
}

#[test]
fn update_permission_replaces_mask() {
    let mut ms = registry();
    add_user(&mut ms, key(1), key(2), vec![1]).unwrap();
    assert_eq!(update_permission(&mut ms, key(1), key(2), vec![0, 2, 2]), Ok(()));
    assert_eq!(users_of(&ms), vec![([1u8; 32], 15), ([2u8; 32], 5)]);
}

#[test]
fn update_permission_clamps_threshold() {
    let mut ms = registry();
    add_user(&mut ms, key(1), key(2), vec![1]).unwrap();
    update_threshold(&mut ms, key(1), 2).unwrap();
    update_permission(&mut ms, key(1), key(2), vec![0]).unwrap();
    assert_eq!(ms.threshold, 1);
    update_permission(&mut ms, key(1), key(2), vec![1]).unwrap();
    assert_eq!(ms.threshold, 1);
}

#[test]
fn update_permission_errors() {
    let mut ms = registry();
    add_user(&mut ms, key(1), key(2), vec![1]).unwrap();
    assert_eq!(
        update_permission(&mut ms, key(1), key(3), vec![1]),
        Err(ErrorCode::UserDoesNotExists)
    );
    assert_eq!(
        update_permission(&mut ms, key(1), key(2), vec![5]),
        Err(ErrorCode::UnsupportedRole)
    );
    assert_eq!(
        update_permission(&mut ms, key(2), key(2), vec![3]),
        Err(ErrorCode::UserNotAuthorized)
    );
    assert_eq!(users_of(&ms), vec![([1u8; 32], 15), ([2u8; 32], 2)]);
}

#[test]
fn update_threshold_bounds() {
    let mut ms = registry();
    assert_eq!(update_threshold(&mut ms, key(1), 2), Err(ErrorCode::ThresholdOverflow));
    assert_eq!(ms.threshold, 1);
    assert_eq!(update_threshold(&mut ms, key(1), 0), Ok(()));
    assert_eq!(ms.threshold, 0);
    assert_eq!(update_threshold(&mut ms, key(1), 1), Ok(()));
    assert_eq!(ms.threshold, 1);
    assert_eq!(update_threshold(&mut ms, key(5), 0), Err(ErrorCode::UserNotAuthorized));
    assert_eq!(ms.threshold, 1);
}

#[test]
fn propose_numbers_sequentially() {
    let mut ms = registry();
    let first = propose(&mut ms, key(1), key(50), vec![account(60, true, false)], vec![9], 3).unwrap();
    let second = propose(&mut ms, key(1), key(51), vec![], vec![], 4).unwrap();
    assert_eq!((first.index, second.index), (0, 1));
    assert_eq!(ms.transaction_count, 2);
    assert!(first.program_id == key(50));
    assert_eq!(first.data, vec![9]);
    assert_eq!(first.accounts.len(), 1);
    assert!(first.accounts[0].pubkey == key(60));
    assert!(first.accounts[0].is_signer && !first.accounts[0].is_writable);
    assert!(first.proposer == key(1));
    assert!(first.signers.is_empty());
    assert!(!first.did_execute);
    assert!(first.executed_by.is_none());
    assert_eq!(first.bump, 3);
}

#[test]
fn propose_requires_proposer() {
    let mut ms = registry();
    add_user(&mut ms, key(1), key(2), vec![1]).unwrap();
    assert_eq!(
        propose(&mut ms, key(2), key(50), vec![], vec![], 0).err(),
        Some(ErrorCode::UserNotAuthorized)
    );
    assert_eq!(ms.transaction_count, 0);
}

#[test]
fn propose_payload_too_large() {
    let mut ms = registry();
    let r = propose(&mut ms, key(1), key(50), vec![], vec![0u8; MAX_DATA_LEN + 1], 0);
    assert_eq!(r.err(), Some(ErrorCode::TooLarge));
    assert_eq!(ms.transaction_count, 0);
    let r = propose(&mut ms, key(1), key(50), vec![], vec![0u8; MAX_DATA_LEN], 0);
    assert_eq!(r.unwrap().index, 0);
    assert_eq!(ms.transaction_count, 1);
}

#[test]
fn propose_too_many_accounts() {
    let mut ms = registry();
    let accounts: Vec<TransactionAccount> =
        (0..(MAX_ACCOUNTS as u8 + 1)).map(|n| account(n + 60, false, false)).collect();
    let r = propose(&mut ms, key(1), key(50), accounts, vec![], 0);
    assert_eq!(r.err(), Some(ErrorCode::TooLarge));
    assert_eq!(ms.transaction_count, 0);
}

#[test]
fn propose_counter_exhausted() {
    let mut ms = registry();
    ms.transaction_count = u32::MAX;
    let r = propose(&mut ms, key(1), key(50), vec![], vec![], 0);
    assert_eq!(r.err(), Some(ErrorCode::InvalidCalculation));
    assert_eq!(ms.transaction_count, u32::MAX);
}

#[test]
fn first_vote_is_appended() {
    let mut ms = registry();
    add_user(&mut ms, key(1), key(2), vec![1]).unwrap();
    let mut p = new_proposal(&mut ms);
    assert_eq!(approve(&ms, &mut p, key(2), false), Ok(()));
    assert_eq!(approve(&ms, &mut p, key(1), true), Ok(()));
    assert_eq!(votes_of(&p), vec![([2u8; 32], false), ([1u8; 32], true)]);
    assert_eq!(p.favour_count(), 1);
}

#[test]
fn same_vote_twice_is_rejected() {
    let mut ms = registry();
    let mut p = new_proposal(&mut ms);
    assert_eq!(approve(&ms, &mut p, key(1), true), Ok(()));
    assert_eq!(approve(&ms, &mut p, key(1), true), Err(ErrorCode::UserAlreadyVoted));
    assert_eq!(approve(&ms, &mut p, key(1), true), Err(ErrorCode::UserAlreadyVoted));
    assert_eq!(votes_of(&p), vec![([1u8; 32], true)]);
}

#[test]
fn vote_flip_overwrites_in_place() {
    let mut ms = registry();
    add_user(&mut ms, key(1), key(2), vec![1]).unwrap();
    let mut p = new_proposal(&mut ms);
    approve(&ms, &mut p, key(1), true).unwrap();
    approve(&ms, &mut p, key(2), true).unwrap();
    assert_eq!(approve(&ms, &mut p, key(1), false), Ok(()));
    assert_eq!(votes_of(&p), vec![([1u8; 32], false), ([2u8; 32], true)]);
    assert_eq!(p.favour_count(), 1);
    assert_eq!(approve(&ms, &mut p, key(1), false), Err(ErrorCode::UserAlreadyVoted));
    assert_eq!(p.cast_vote(key(1), true), Ok(()));
    assert_eq!(votes_of(&p), vec![([1u8; 32], true), ([2u8; 32], true)]);
}

#[test]
fn vote_requires_approver_now() {
    let mut ms = registry();
    add_user(&mut ms, key(1), key(2), vec![1]).unwrap();
    let mut p = new_proposal(&mut ms);
    update_permission(&mut ms, key(1), key(2), vec![0]).unwrap();
    assert_eq!(approve(&ms, &mut p, key(2), true), Err(ErrorCode::UserNotAuthorized));
    assert_eq!(approve(&ms, &mut p, key(7), true), Err(ErrorCode::UserNotAuthorized));
    assert!(p.signers.is_empty());
}

#[test]
fn quorum_scenario_executes() {
    let mut ms = registry();
    assert_eq!(add_user(&mut ms, key(1), key(2), vec![APPROVER_POSITION]), Ok(()));
    assert_eq!(update_threshold(&mut ms, key(1), 2), Ok(()));
    assert_eq!(ms.approver_count(), 2);
    let mut p = new_proposal(&mut ms);
    assert_eq!(approve(&ms, &mut p, key(1), true), Ok(()));
    assert_eq!(approve(&ms, &mut p, key(2), true), Ok(()));
    assert_eq!(p.favour_count(), 2);
    assert_eq!(execute(&ms, &mut p, key(1), true), Ok(()));
    assert!(p.did_execute);
    assert!(p.executed_by == Some(key(1)));
}

#[test]
fn quorum_scenario_executor_lacks_role() {
    let mut ms = registry();
    add_user(&mut ms, key(1), key(2), vec![APPROVER_POSITION]).unwrap();
    update_threshold(&mut ms, key(1), 2).unwrap();
    let mut p = new_proposal(&mut ms);
    approve(&ms, &mut p, key(1), true).unwrap();
    approve(&ms, &mut p, key(2), true).unwrap();
    update_permission(&mut ms, key(1), key(1), vec![0, 1, 3]).unwrap();
    assert_eq!(
        prepare_execute(&ms, &p, key(1)).err(),
        Some(ErrorCode::UserNotAuthorized)
    );
    assert_eq!(execute(&ms, &mut p, key(1), true), Err(ErrorCode::UserNotAuthorized));
    assert!(!p.did_execute);
    assert!(p.executed_by.is_none());
}

#[test]
fn execute_needs_enough_votes() {
    let mut ms = registry();
    add_user(&mut ms, key(1), key(2), vec![1]).unwrap();
    update_threshold(&mut ms, key(1), 2).unwrap();
    let mut p = new_proposal(&mut ms);
    approve(&ms, &mut p, key(1), true).unwrap();
    approve(&ms, &mut p, key(2), false).unwrap();
    assert_eq!(prepare_execute(&ms, &p, key(1)).err(), Some(ErrorCode::InsufficientVotes));
    assert_eq!(execute(&ms, &mut p, key(1), true), Err(ErrorCode::InsufficientVotes));
    assert!(!p.did_execute);
}

#[test]
fn failed_invocation_leaves_proposal_pending() {
    let mut ms = registry();
    let mut p = new_proposal(&mut ms);
    approve(&ms, &mut p, key(1), true).unwrap();
    assert_eq!(execute(&ms, &mut p, key(1), false), Err(ErrorCode::InvocationFailed));
    assert!(!p.did_execute);
    assert!(p.executed_by.is_none());
    assert_eq!(execute(&ms, &mut p, key(1), true), Ok(()));
    assert!(p.did_execute);
}

#[test]
fn execute_at_most_once() {
    let mut ms = registry();
    add_user(&mut ms, key(1), key(2), vec![1, 2]).unwrap();
    let mut p = new_proposal(&mut ms);
    approve(&ms, &mut p, key(1), true).unwrap();
    assert_eq!(execute(&ms, &mut p, key(1), true), Ok(()));
    assert_eq!(execute(&ms, &mut p, key(1), true), Err(ErrorCode::TransactionAlreadyExecuted));
    assert_eq!(execute(&ms, &mut p, key(2), true), Err(ErrorCode::TransactionAlreadyExecuted));
    assert_eq!(
        prepare_execute(&ms, &p, key(2)).err(),
        Some(ErrorCode::TransactionAlreadyExecuted)
    );
    assert!(p.executed_by == Some(key(1)));
    assert_eq!(approve(&ms, &mut p, key(2), true), Err(ErrorCode::TransactionAlreadyExecuted));
    assert_eq!(p.cast_vote(key(1), false), Err(ErrorCode::TransactionAlreadyExecuted));
    assert_eq!(votes_of(&p), vec![([1u8; 32], true)]);
}

#[test]
fn invocation_puts_treasury_first() {
    let mut ms = registry();
    let accounts = vec![account(60, false, true), account(61, true, false)];
    let mut p = propose(&mut ms, key(1), key(50), accounts, vec![4, 5], 0).unwrap();
    approve(&ms, &mut p, key(1), true).unwrap();
    let inv = prepare_execute(&ms, &p, key(1)).unwrap();
    assert!(inv.program_id == key(50));
    assert_eq!(inv.data, vec![4, 5]);
    let flags: Vec<([u8; 32], bool, bool)> =
        inv.accounts.iter().map(|a| (a.pubkey.bytes, a.is_signer, a.is_writable)).collect();
    assert_eq!(
        flags,
        vec![([200u8; 32], true, true), ([60u8; 32], false, true), ([61u8; 32], true, false)]
    );
}

#[test]
fn invocation_drops_treasury_duplicates() {
    let mut ms = registry();
    let accounts = vec![account(60, false, false), account(200, false, false), account(61, false, true)];
    let mut p = propose(&mut ms, key(1), key(50), accounts, vec![], 0).unwrap();
    approve(&ms, &mut p, key(1), true).unwrap();
    let inv = prepare_execute(&ms, &p, key(1)).unwrap();
    let flags: Vec<([u8; 32], bool, bool)> =
        inv.accounts.iter().map(|a| (a.pubkey.bytes, a.is_signer, a.is_writable)).collect();
    assert_eq!(
        flags,
        vec![([200u8; 32], true, true), ([60u8; 32], false, false), ([61u8; 32], false, true)]
    );
}

#[test]
fn validity_check_detects_broken_registry() {
    let mut ms = registry();
    assert!(ms.is_valid());
    ms.threshold = 2;
    assert!(!ms.is_valid());
    ms.threshold = 1;
    ms.users.push(UserInfo { key: key(1), roles: 0 });
    assert!(!ms.is_valid());
}
