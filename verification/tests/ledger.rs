use token_ledger::{AccountId, Token, TokenError};

fn id(tag: u8) -> AccountId {
    AccountId::new([tag; 32])
}

fn minted(supply: u64, owner: AccountId) -> Token {
    let mut token = Token::new(owner);
    token.initialize(supply, owner);
    token
}

fn minted_with_second_account(supply: u64, owner: AccountId, second: AccountId) -> Token {
    let mut token = minted(supply, owner);
    token.balances.push((second, 0));
    token
}

#[test]
fn new_token_is_uninitialized() {
    let token = Token::new(id(1));
    assert_eq!(token.total_supply, 0);
    assert_eq!(token.owner, id(1));
    assert!(token.balances.is_empty());
    assert!(token.allowances.is_empty());
    assert!(token.is_well_formed());
    assert_eq!(token.total_balance(), Some(0));
}

#[test]
fn initialize_credits_owner_with_supply() {
    let a = id(1);
    let b = id(2);
    let token = minted(1000, a);
    assert_eq!(token.total_supply, 1000);
    assert_eq!(token.owner, a);
    assert_eq!(token.balances, vec![(a, 1000)]);
    assert_eq!(token.get_balance(&a), 1000);
    assert_eq!(token.get_balance(&b), 0);
    assert_eq!(token.total_balance(), Some(1000));
}

#[test]
fn initialize_sets_owner_of_a_token_made_for_another() {
    let mut token = Token::new(id(9));
    token.initialize(7, id(1));
    assert_eq!(token.owner, id(1));
    assert_eq!(token.balances, vec![(id(1), 7)]);
}

#[test]
fn initialize_overwrites_prior_balance_of_owner() {
    let a = id(1);
    let mut token = minted(1000, a);
    token.initialize(250, a);
    assert_eq!(token.total_supply, 250);
    assert_eq!(token.balances, vec![(a, 250)]);
    assert_eq!(token.get_balance(&a), 250);
    assert!(token.is_well_formed());
}

#[test]
fn initialize_again_for_another_owner_keeps_other_entries() {
    let a = id(1);
    let b = id(2);
    let mut token = minted(1000, a);
    token.initialize(30, b);
    assert_eq!(token.total_supply, 30);
    assert_eq!(token.owner, b);
    assert_eq!(token.balances, vec![(a, 1000), (b, 30)]);
    assert_eq!(token.total_balance(), Some(1030));
}

#[test]
fn transfer_moves_units_between_known_accounts() {
    let a = id(1);
    let b = id(2);
    let mut token = minted_with_second_account(1000, a, b);
    assert_eq!(token.transfer(&a, &b, 400), Ok(()));
    assert_eq!(token.balances, vec![(a, 600), (b, 400)]);
    assert_eq!(token.get_balance(&a), 600);
    assert_eq!(token.get_balance(&b), 400);
    assert_eq!(token.total_balance(), Some(1000));
    assert_eq!(token.total_supply, 1000);
}

#[test]
fn transfer_to_account_without_entry_is_unknown_account() {
    let a = id(1);
    let b = id(2);
    let mut token = minted(1000, a);
    let before = token.clone();
    assert_eq!(token.transfer(&a, &b, 400), Err(TokenError::UnknownAccount));
    assert_eq!(token, before);
}

#[test]
fn transfer_from_account_without_entry_is_unknown_account() {
    let a = id(1);
    let b = id(2);
    let mut token = minted(1000, a);
    let before = token.clone();
    assert_eq!(token.transfer(&b, &a, 0), Err(TokenError::UnknownAccount));
    assert_eq!(token, before);
}

#[test]
fn transfer_beyond_balance_is_insufficient_funds() {
    let a = id(1);
    let b = id(2);
    let mut token = minted_with_second_account(1000, a, b);
    assert_eq!(token.transfer(&a, &b, 400), Ok(()));
    assert_eq!(token.transfer(&a, &b, 700), Err(TokenError::InsufficientFunds));
    assert_eq!(token.balances, vec![(a, 600), (b, 400)]);
}

#[test]
fn transfer_on_empty_table_is_unknown_account() {
    let a = id(1);
    let c = id(3);
    let mut token = Token::new(a);
    assert_eq!(token.transfer(&a, &c, 10), Err(TokenError::UnknownAccount));
    assert!(token.balances.is_empty());
}

#[test]
fn unknown_account_is_reported_before_insufficient_funds() {
    let a = id(1);
    let c = id(3);
    let mut token = minted(5, a);
    assert_eq!(token.transfer(&a, &c, 10), Err(TokenError::UnknownAccount));
}

#[test]
fn transfer_to_self_keeps_balance() {
    let a = id(1);
    let mut token = minted(1000, a);
    assert_eq!(token.transfer(&a, &a, 1000), Ok(()));
    assert_eq!(token.balances, vec![(a, 1000)]);
    assert_eq!(token.transfer(&a, &a, 0), Ok(()));
    assert_eq!(token.balances, vec![(a, 1000)]);
}

#[test]
fn transfer_to_self_still_needs_the_funds() {
    let a = id(1);
    let mut token = minted(1000, a);
    assert_eq!(token.transfer(&a, &a, 1001), Err(TokenError::InsufficientFunds));
    assert_eq!(token.balances, vec![(a, 1000)]);
}

#[test]
fn transfer_to_self_at_the_top_of_the_range() {
    let a = id(1);
    let mut token = minted(u64::MAX, a);
    assert!(token.transfer_fits(&a, &a, u64::MAX));
    assert_eq!(token.transfer(&a, &a, u64::MAX), Ok(()));
    assert_eq!(token.balances, vec![(a, u64::MAX)]);
}

#[test]
fn transfer_of_whole_balance_leaves_zero() {
    let a = id(1);
    let b = id(2);
    let mut token = minted_with_second_account(1000, a, b);
    assert_eq!(token.transfer(&a, &b, 1000), Ok(()));
    assert_eq!(token.balances, vec![(a, 0), (b, 1000)]);
    assert_eq!(token.transfer(&a, &b, 1), Err(TokenError::InsufficientFunds));
    assert_eq!(token.balances, vec![(a, 0), (b, 1000)]);
}

#[test]
fn transfer_of_zero_changes_nothing() {
    let a = id(1);
    let b = id(2);
    let mut token = minted_with_second_account(1000, a, b);
    let before = token.clone();
    assert_eq!(token.transfer(&a, &b, 0), Ok(()));
    assert_eq!(token, before);
}

#[test]
fn transfer_leaves_other_accounts_and_allowances_alone() {
    let a = id(1);
    let b = id(2);
    let c = id(3);
    let mut token = minted_with_second_account(1000, a, b);
    token.balances.push((c, 77));
    assert_eq!(token.approve(&a, &b, 9), Ok(()));
    assert_eq!(token.transfer(&a, &b, 1), Ok(()));
    assert_eq!(token.balances, vec![(a, 999), (b, 1), (c, 77)]);
    assert_eq!(token.allowances, vec![(a, b, 9)]);
    assert_eq!(token.owner, a);
}

#[test]
fn balances_add_up_to_supply_after_every_transfer() {
    let a = id(1);
    let b = id(2);
    let c = id(3);
    let mut token = minted_with_second_account(1000, a, b);
    token.balances.push((c, 0));
    let requests = [
        (a, b, 400u64),
        (b, c, 150),
        (c, a, 150),
        (a, c, 750),
        (b, b, 250),
        (c, b, 1),
        (b, a, 251),
        (a, b, 0),
    ];
    for (sender, recipient, amount) in requests {
        assert_eq!(token.transfer(&sender, &recipient, amount), Ok(()));
        assert_eq!(token.total_balance(), Some(1000));
        assert_eq!(token.total_supply, 1000);
    }
    assert_eq!(token.balances, vec![(a, 251), (b, 0), (c, 749)]);
}

#[test]
fn rejected_transfers_do_not_disturb_the_sum() {
    let a = id(1);
    let b = id(2);
    let mut token = minted_with_second_account(1000, a, b);
    assert_eq!(token.transfer(&b, &a, 1), Err(TokenError::InsufficientFunds));
    assert_eq!(token.transfer(&a, &id(7), 1), Err(TokenError::UnknownAccount));
    assert_eq!(token.total_balance(), Some(1000));
    assert_eq!(token.balances, vec![(a, 1000), (b, 0)]);
}

#[test]
fn overdraft_fails_and_leaves_both_balances() {
    let a = id(1);
    let b = id(2);
    let mut token = minted_with_second_account(10, a, b);
    assert_eq!(token.transfer(&a, &b, 4), Ok(()));
    assert_eq!(token.transfer(&a, &b, 7), Err(TokenError::InsufficientFunds));
    assert_eq!(token.transfer(&b, &a, 5), Err(TokenError::InsufficientFunds));
    assert_eq!(token.transfer(&a, &b, u64::MAX), Err(TokenError::InsufficientFunds));
    assert_eq!(token.get_balance(&a), 6);
    assert_eq!(token.get_balance(&b), 4);
}

#[test]
fn get_balance_of_uncredited_account_is_zero() {
    let a = id(1);
    let token = Token::new(a);
    assert_eq!(token.get_balance(&a), 0);
    assert_eq!(token.get_balance(&id(200)), 0);
    let token = minted(1, a);
    assert_eq!(token.get_balance(&id(200)), 0);
}

#[test]
fn get_balance_tells_accounts_apart_by_every_byte() {
    let mut first = [0u8; 32];
    let mut last = [0u8; 32];
    first[0] = 1;
    last[31] = 1;
    let a = AccountId::new(first);
    let b = AccountId::new(last);
    let mut token = minted(5, a);
    token.balances.push((b, 6));
    assert_eq!(token.get_balance(&a), 5);
    assert_eq!(token.get_balance(&b), 6);
    assert_eq!(token.get_balance(&AccountId::new([0u8; 32])), 0);
}

#[test]
fn approve_overwrites_previous_allowance() {
    let a = id(1);
    let s = id(5);
    let mut token = Token::new(a);
    assert_eq!(token.approve(&a, &s, 50), Ok(()));
    assert_eq!(token.allowances, vec![(a, s, 50)]);
    assert_eq!(token.approve(&a, &s, 5), Ok(()));
    assert_eq!(token.allowances, vec![(a, s, 5)]);
}

#[test]
fn approve_is_not_additive() {
    let a = id(1);
    let s = id(5);
    let mut token = Token::new(a);
    assert_eq!(token.approve(&a, &s, 5), Ok(()));
    assert_eq!(token.approve(&a, &s, 5), Ok(()));
    assert_eq!(token.allowances, vec![(a, s, 5)]);
    assert_eq!(token.approve(&a, &s, 0), Ok(()));
    assert_eq!(token.allowances, vec![(a, s, 0)]);
}

#[test]
fn approve_keeps_one_entry_per_pair() {
    let a = id(1);
    let b = id(2);
    let s = id(5);
    let mut token = minted(1000, a);
    assert_eq!(token.approve(&a, &s, 50), Ok(()));
    assert_eq!(token.approve(&s, &a, 60), Ok(()));
    assert_eq!(token.approve(&b, &s, 70), Ok(()));
    assert_eq!(token.approve(&a, &b, 80), Ok(()));
    assert_eq!(token.approve(&s, &a, 61), Ok(()));
    assert_eq!(token.approve(&a, &a, 1), Ok(()));
    assert_eq!(
        token.allowances,
        vec![(a, s, 50), (s, a, 61), (b, s, 70), (a, b, 80), (a, a, 1)]
    );
    assert!(token.is_well_formed());
    assert_eq!(token.balances, vec![(a, 1000)]);
    assert_eq!(token.total_supply, 1000);
}

#[test]
fn approve_needs_no_balance() {
    let a = id(1);
    let s = id(5);
    let mut token = Token::new(id(9));
    assert_eq!(token.approve(&a, &s, u64::MAX), Ok(()));
    assert_eq!(token.allowances, vec![(a, s, u64::MAX)]);
    assert!(token.balances.is_empty());
}

#[test]
fn total_balance_that_leaves_the_range_is_none() {
    let mut token = Token::new(id(1));
    token.balances.push((id(1), u64::MAX));
    token.balances.push((id(2), 0));
    assert_eq!(token.total_balance(), Some(u64::MAX));
    token.balances.push((id(3), 1));
    assert_eq!(token.total_balance(), None);
}

#[test]
fn transfer_fits_tells_when_the_credit_overflows() {
    let a = id(1);
    let b = id(2);
    let mut token = Token::new(a);
    token.balances.push((a, 10));
    token.balances.push((b, u64::MAX - 3));
    assert!(token.transfer_fits(&a, &b, 0));
    assert!(token.transfer_fits(&a, &b, 3));
    assert!(!token.transfer_fits(&a, &b, 4));
    assert!(!token.transfer_fits(&a, &b, 10));
    assert!(token.transfer_fits(&a, &b, 11));
    assert!(token.transfer_fits(&a, &id(3), 4));
    assert!(token.transfer_fits(&b, &b, u64::MAX - 3));
    assert!(token.transfer_fits(&b, &a, u64::MAX - 10));
    assert!(!token.transfer_fits(&b, &a, u64::MAX - 9));
    assert!(token.transfer_fits(&b, &a, u64::MAX - 2));
    assert_eq!(token.transfer(&a, &b, 3), Ok(()));
    assert_eq!(token.balances, vec![(a, 7), (b, u64::MAX)]);
}

#[test]
fn is_well_formed_rejects_two_entries_for_one_account() {
    let a = id(1);
    let b = id(2);
    let mut token = Token::new(a);
    token.balances.push((a, 1));
    token.balances.push((b, 2));
    assert!(token.is_well_formed());
    token.balances.push((a, 3));
    assert!(!token.is_well_formed());
}

#[test]
fn is_well_formed_rejects_two_entries_for_one_pair() {
    let a = id(1);
    let b = id(2);
    let mut token = Token::new(a);
    token.allowances.push((a, b, 1));
    token.allowances.push((b, a, 1));
    token.allowances.push((a, a, 1));
    assert!(token.is_well_formed());
    token.allowances.push((b, a, 2));
    assert!(!token.is_well_formed());
}

#[test]
fn account_ids_are_equal_when_all_bytes_are() {
    let mut bytes = [7u8; 32];
    assert!(AccountId::new(bytes) == id(7));
    assert_eq!(AccountId::new(bytes).to_bytes(), [7u8; 32]);
    bytes[31] = 8;
    assert!(AccountId::new(bytes) != id(7));
    bytes[31] = 7;
    bytes[0] = 0;
    assert!(AccountId::new(bytes) != id(7));
    bytes[0] = 7;
    bytes[16] = 6;
    assert!(AccountId::new(bytes) != id(7));
}

#[test]
fn account_id_from_slice_copies_the_bytes() {
    let bytes: Vec<u8> = (0u8..32).collect();
    let account = AccountId::from_slice(&bytes);
    assert_eq!(account.to_bytes().to_vec(), bytes);
    assert_eq!(account.bytes[0], 0);
    assert_eq!(account.bytes[31], 31);
}
