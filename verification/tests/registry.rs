use nft_registry::AccountId;
use nft_registry::NFT;

#[test]
fn default_state() {
    //Given
    let nft = NFT::default(AccountId::from([0x1; 32]));

    //When
    let tokens = nft.get_token_count_for_account(AccountId::from([0x1; 32]));

    //Then
    assert_eq!(tokens, 0);
}

#[test]
fn mint() {
    //Given
    let mut nft = NFT::default(AccountId::from([0x1; 32]));
    let account_one = AccountId::from([0x1; 32]);
    let token_id: u64 = 95;

    //When
    nft.mint(account_one, token_id);

    //Then
    assert_eq!(nft.get_token_count_for_account(account_one), 1);
}

#[test]
fn transfer() {
    //Given
    let mut nft = NFT::default(AccountId::from([0x1; 32]));
    let account_one = AccountId::from([0x1; 32]);
    let account_two = AccountId::from([0x2; 32]);
    let token_id: u64 = 95;

    //When
    nft.mint(account_one, token_id);
    nft.transfer(account_one, account_two, token_id);

    //Then
    assert_eq!(nft.get_token_count_for_account(account_one), 0);
    assert_eq!(nft.get_token_count_for_account(account_two), 1);
}

#[test]
fn fresh_registry_reports_zero_for_every_account() {
    let nft = NFT::default(AccountId::from([0x9; 32]));
    assert_eq!(nft.get_token_count_for_account(AccountId::from([0x0; 32])), 0);
    assert_eq!(nft.get_token_count_for_account(AccountId::from([0x9; 32])), 0);
    assert_eq!(nft.get_token_count_for_account(AccountId::from([0xff; 32])), 0);
}

#[test]
fn mint_returns_true_and_increments() {
    let mut nft = NFT::default(AccountId::from([0x1; 32]));
    let account_one = AccountId::from([0x1; 32]);
    assert!(nft.mint(account_one, 95));
    assert_eq!(nft.get_token_count_for_account(account_one), 1);
}

#[test]
fn mint_two_tokens_to_one_account() {
    let mut nft = NFT::default(AccountId::from([0x1; 32]));
    let account_one = AccountId::from([0x1; 32]);
    assert!(nft.mint(account_one, 1));
    assert!(nft.mint(account_one, 2));
    assert_eq!(nft.get_token_count_for_account(account_one), 2);
}

#[test]
fn transfer_returns_true_and_moves_ownership() {
    let mut nft = NFT::default(AccountId::from([0x1; 32]));
    let account_one = AccountId::from([0x1; 32]);
    let account_two = AccountId::from([0x2; 32]);
    nft.mint(account_one, 95);
    assert!(nft.transfer(account_one, account_two, 95));
    assert_eq!(nft.get_token_count_for_account(account_one), 0);
    assert_eq!(nft.get_token_count_for_account(account_two), 1);
}

#[test]
fn transfer_by_past_owner_rejected() {
    let mut nft = NFT::default(AccountId::from([0x1; 32]));
    let account_one = AccountId::from([0x1; 32]);
    let account_two = AccountId::from([0x2; 32]);
    let account_three = AccountId::from([0x3; 32]);
    nft.mint(account_one, 95);
    assert!(nft.transfer(account_one, account_two, 95));
    // account_one no longer owns token 95
    assert!(!nft.transfer(account_one, account_three, 95));
    assert_eq!(nft.get_token_count_for_account(account_one), 0);
    assert_eq!(nft.get_token_count_for_account(account_two), 1);
    assert_eq!(nft.get_token_count_for_account(account_three), 0);
}

#[test]
fn transfer_of_unminted_token_rejected() {
    let mut nft = NFT::default(AccountId::from([0x1; 32]));
    let account_two = AccountId::from([0x2; 32]);
    let account_three = AccountId::from([0x3; 32]);
    nft.mint(AccountId::from([0x1; 32]), 95);
    assert!(!nft.transfer(account_three, account_two, 999));
    assert_eq!(nft.get_token_count_for_account(AccountId::from([0x1; 32])), 1);
    assert_eq!(nft.get_token_count_for_account(account_two), 0);
    assert_eq!(nft.get_token_count_for_account(account_three), 0);
}

#[test]
fn self_transfer_succeeds_and_keeps_balance() {
    let mut nft = NFT::default(AccountId::from([0x1; 32]));
    let account_one = AccountId::from([0x1; 32]);
    nft.mint(account_one, 95);
    assert!(nft.transfer(account_one, account_one, 95));
    assert_eq!(nft.get_token_count_for_account(account_one), 1);
}

#[test]
fn remint_to_other_account_corrects_counts() {
    let mut nft = NFT::default(AccountId::from([0x1; 32]));
    let account_one = AccountId::from([0x1; 32]);
    let account_two = AccountId::from([0x2; 32]);
    nft.mint(account_one, 95);
    // minting the same identifier again hands it over and repairs the counts
    assert!(nft.mint(account_two, 95));
    assert_eq!(nft.get_token_count_for_account(account_one), 0);
    assert_eq!(nft.get_token_count_for_account(account_two), 1);
}

#[test]
fn remint_to_same_owner_keeps_count() {
    let mut nft = NFT::default(AccountId::from([0x1; 32]));
    let account_one = AccountId::from([0x1; 32]);
    nft.mint(account_one, 95);
    assert!(nft.mint(account_one, 95));
    assert_eq!(nft.get_token_count_for_account(account_one), 1);
}

#[test]
fn balances_sum_to_minted_tokens() {
    let mut nft = NFT::default(AccountId::from([0x1; 32]));
    let account_one = AccountId::from([0x1; 32]);
    let account_two = AccountId::from([0x2; 32]);
    let account_three = AccountId::from([0x3; 32]);
    nft.mint(account_one, 10);
    nft.mint(account_two, 20);
    nft.mint(account_one, 30);
    nft.transfer(account_one, account_three, 10);
    nft.transfer(account_two, account_three, 20);
    let total: u64 = nft.get_token_count_for_account(account_one)
        + nft.get_token_count_for_account(account_two)
        + nft.get_token_count_for_account(account_three);
    assert_eq!(total, 3);
}

#[test]
fn account_ids_compare_by_bytes() {
    let a = AccountId::from([0x5; 32]);
    let b = AccountId::from([0x5; 32]);
    let c = AccountId::from([0x6; 32]);
    assert!(a == b);
    assert!(a != c);
}
