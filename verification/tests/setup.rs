use amm::amm::{initialize, initialize_with_authority};
use amm::pubkey::derive_authority;
use amm::state::{Context, Mint, TokenAccount};
use amm::{Amm, AmmError, InitializeAmm, Pubkey};

fn address(fill: u8) -> Pubkey {
    Pubkey::new_from_array([fill; 32])
}

fn blank_pool() -> Amm {
    Amm {
        auth_key: address(0),
        token_a: address(0),
        token_b: address(0),
        mint_a: address(0),
        mint_b: address(0),
        token_a_decimal: 0,
        token_b_decimal: 0,
        constant: 0,
        is_initialized: false,
    }
}

/// Accounts that `initialize_with_authority` accepts for the derived address `address(50)`:
/// 10.00 of asset A and 20.00 of asset B.
fn fresh_accounts() -> InitializeAmm {
    let authority = address(50);
    InitializeAmm {
        amm_key: address(1),
        amm_account: blank_pool(),
        signer: address(2),
        mint_a: Mint { key: address(10), supply: 1_000_000, decimals: 2 },
        mint_b: Mint { key: address(20), supply: 5_000_000, decimals: 2 },
        token_a: TokenAccount { key: address(11), mint: address(10), owner: authority, amount: 1000 },
        token_b: TokenAccount { key: address(21), mint: address(20), owner: authority, amount: 2000 },
        authority,
    }
}

fn derived() -> Option<(Pubkey, u8)> {
    Some((address(50), 255))
}

fn refused(accounts: InitializeAmm, derived: Option<(Pubkey, u8)>, error: AmmError) {
    let mut given = accounts;
    assert_eq!(initialize_with_authority(&mut given, derived), Err(error));
    assert_eq!(given, accounts);
}

#[test]
fn initialize_fills_the_pool_record_in() {
    let mut accounts = fresh_accounts();
    assert_eq!(initialize_with_authority(&mut accounts, derived()), Ok(()));
    assert_eq!(
        accounts.amm_account,
        Amm {
            auth_key: address(2),
            token_a: address(11),
            token_b: address(21),
            mint_a: address(10),
            mint_b: address(20),
            token_a_decimal: 2,
            token_b_decimal: 2,
            constant: 2_000_000,
            is_initialized: true,
        }
    );
    assert_eq!(InitializeAmm { amm_account: blank_pool(), ..accounts }, fresh_accounts());
}

#[test]
fn initialize_sets_the_invariant_to_the_exact_product_of_the_reserves() {
    let mut accounts = fresh_accounts();
    accounts.token_a.amount = u64::MAX;
    accounts.token_b.amount = u64::MAX;
    accounts.mint_a.decimals = 9;
    accounts.mint_b.decimals = 6;
    assert_eq!(initialize_with_authority(&mut accounts, derived()), Ok(()));
    assert_eq!(accounts.amm_account.constant, (u64::MAX as u128) * (u64::MAX as u128));
    assert_eq!(accounts.amm_account.token_a_decimal, 9);
    assert_eq!(accounts.amm_account.token_b_decimal, 6);

    let mut accounts = fresh_accounts();
    accounts.token_a.amount = 0;
    assert_eq!(initialize_with_authority(&mut accounts, derived()), Ok(()));
    assert_eq!(accounts.amm_account.constant, 0);
}

#[test]
fn initialize_refuses_a_pool_that_is_set_up() {
    let mut accounts = fresh_accounts();
    assert_eq!(initialize_with_authority(&mut accounts, derived()), Ok(()));
    refused(accounts, derived(), AmmError::AlreadyInUse);
}

#[test]
fn initialize_refuses_an_authority_that_was_not_derived() {
    refused(fresh_accounts(), Some((address(51), 255)), AmmError::InvalidProgramAddress);
    refused(fresh_accounts(), None, AmmError::InvalidProgramAddress);
}

#[test]
fn initialize_refuses_reserves_that_the_authority_does_not_own() {
    let mut accounts = fresh_accounts();
    accounts.token_a.owner = address(2);
    refused(accounts, derived(), AmmError::InvalidOwner);
    let mut accounts = fresh_accounts();
    accounts.token_b.owner = address(2);
    refused(accounts, derived(), AmmError::InvalidOwner);
}

#[test]
fn initialize_refuses_identical_mints() {
    let mut accounts = fresh_accounts();
    accounts.mint_b.key = accounts.mint_a.key;
    refused(accounts, derived(), AmmError::RepeatedMint);
    let mut accounts = fresh_accounts();
    accounts.token_b.mint = accounts.token_a.mint;
    refused(accounts, derived(), AmmError::RepeatedMint);
    let mut accounts = fresh_accounts();
    accounts.mint_b = accounts.mint_a;
    accounts.token_b.mint = accounts.token_a.mint;
    refused(accounts, derived(), AmmError::RepeatedMint);
}

#[test]
fn initialize_refuses_a_mint_without_supply() {
    let mut accounts = fresh_accounts();
    accounts.mint_a.supply = 0;
    refused(accounts, derived(), AmmError::InvalidSupply);
    let mut accounts = fresh_accounts();
    accounts.mint_b.supply = 0;
    refused(accounts, derived(), AmmError::InvalidSupply);
}

#[test]
fn initialize_reports_the_first_condition_that_fails() {
    let mut accounts = fresh_accounts();
    accounts.mint_a.supply = 0;
    accounts.mint_b.key = accounts.mint_a.key;
    refused(accounts, derived(), AmmError::RepeatedMint);
    accounts.token_a.owner = address(2);
    refused(accounts, derived(), AmmError::InvalidOwner);
    refused(accounts, None, AmmError::InvalidProgramAddress);
    accounts.amm_account.is_initialized = true;
    refused(accounts, None, AmmError::AlreadyInUse);
}

#[test]
fn initialize_derives_the_authority_from_pool_and_program() {
    let program_id = address(99);
    let mut accounts = fresh_accounts();
    let (authority, _) = derive_authority(&accounts.amm_key, &program_id).unwrap();
    accounts.authority = authority;
    accounts.token_a.owner = authority;
    accounts.token_b.owner = authority;
    let mut ctx = Context { program_id, accounts };
    assert_eq!(initialize(&mut ctx), Ok(()));
    assert!(ctx.accounts.amm_account.is_initialized);
    assert_eq!(ctx.accounts.amm_account.constant, 2_000_000);
    assert_eq!(ctx.program_id, program_id);

    let mut ctx = Context { program_id, accounts: fresh_accounts() };
    assert_eq!(initialize(&mut ctx), Err(AmmError::InvalidProgramAddress));
    assert_eq!(ctx.accounts, fresh_accounts());

    let mut ctx = Context { program_id: address(98), accounts };
    assert_eq!(initialize(&mut ctx), Err(AmmError::InvalidProgramAddress));
}
