use crate::pubkey::Pubkey;
use crate::utils::Quantity;
use vstd::prelude::*;

verus! {

/// What a pool operation reads of a mint.
#[derive(Clone, Copy, Debug, PartialEq, Eq)]
pub struct Mint {
    /// The address of the mint.
    pub key: Pubkey,
    /// The total supply, in raw units.
    pub supply: u64,
    /// How many decimals a raw unit of the asset has.
    pub decimals: u8,
}

/// What a pool operation reads of a token account.
#[derive(Clone, Copy, Debug, PartialEq, Eq)]
pub struct TokenAccount {
    /// The address of the account.
    pub key: Pubkey,
    /// The mint whose asset the account holds.
    pub mint: Pubkey,
    /// Who may move the balance.
    pub owner: Pubkey,
    /// The balance, in raw units.
    pub amount: u64,
}

/// The record of a pool of two assets, A and B.
#[derive(Clone, Copy, Debug, PartialEq, Eq)]
pub struct Amm {
    /// Who may add liquidity.
    pub auth_key: Pubkey,
    /// The reserve account of asset A.
    pub token_a: Pubkey,
    /// The reserve account of asset B.
    pub token_b: Pubkey,
    /// The mint of asset A.
    pub mint_a: Pubkey,
    /// The mint of asset B.
    pub mint_b: Pubkey,
    /// The decimals of asset A.
    pub token_a_decimal: u8,
    /// The decimals of asset B.
    pub token_b_decimal: u8,
    /// The invariant, the product of the two normalized reserves when it was last set, in
    /// units of `10^-(token_a_decimal + token_b_decimal)`: the product of the two raw
    /// reserves.
    pub constant: u128,
    /// Whether the pool has been set up.
    pub is_initialized: bool,
}

impl Amm {
    /// The invariant as an exact decimal number.
    pub open spec fn invariant_k(&self) -> Quantity {
        Quantity {
            units: self.constant as nat,
            scale: (self.token_a_decimal + self.token_b_decimal) as nat,
        }
    }

    /// A pool that has been set up trades two different mints.
    pub open spec fn wf(&self) -> bool {
        self.is_initialized ==> self.mint_a != self.mint_b
    }
}

/// The accounts of one transfer on the token ledger.
#[derive(Clone, Copy, Debug, PartialEq, Eq)]
pub struct Transfer {
    /// The account that is debited.
    pub from: Pubkey,
    /// The account that is credited.
    pub to: Pubkey,
    /// Who authorizes the debit.
    pub authority: Pubkey,
}

/// A transfer that the caller has to carry out on the token ledger.
#[derive(Clone, Copy, Debug, PartialEq, Eq)]
pub struct TokenTransfer {
    pub accounts: Transfer,
    /// The amount to move, in raw units.
    pub amount: u64,
}

/// The two legs of a swap, in the order in which they are carried out.
#[derive(Clone, Copy, Debug, PartialEq, Eq)]
pub struct SwapTransfers {
    /// From the trader's account into the reserve, authorized by the trader.
    pub deposit: TokenTransfer,
    /// Out of the other reserve to the trader, authorized by the pool's derived authority.
    pub payout: TokenTransfer,
    /// The bump seed with which the program signs for the derived authority, after the
    /// pool's address.
    pub bump_seed: u8,
}

/// An instruction's accounts, with the program that runs it.
#[derive(Debug, PartialEq, Eq)]
pub struct Context<T> {
    pub program_id: Pubkey,
    pub accounts: T,
}

} // verus!
