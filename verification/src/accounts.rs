use crate::pubkey::Pubkey;
use crate::state::{Amm, Mint, TokenAccount, Transfer};
use vstd::prelude::*;

verus! {

/// The accounts of `initialize`.
#[derive(Clone, Copy, Debug, PartialEq, Eq)]
pub struct InitializeAmm {
    /// The address of the pool record.
    pub amm_key: Pubkey,
    /// The pool record.
    pub amm_account: Amm,
    /// Who sets the pool up, and owns it from then on.
    pub signer: Pubkey,
    pub mint_a: Mint,
    pub mint_b: Mint,
    /// The reserve account of asset A.
    pub token_a: TokenAccount,
    /// The reserve account of asset B.
    pub token_b: TokenAccount,
    /// The address that is to own both reserves.
    pub authority: Pubkey,
}

/// The accounts of `swap_transfer_token`.
#[derive(Clone, Copy, Debug, PartialEq, Eq)]
pub struct ProxySwapTransferToken {
    /// The address of the pool record.
    pub amm_key: Pubkey,
    /// The pool record.
    pub amm_account: Amm,
    /// The trader, who authorizes the leg into the pool.
    pub signer: Pubkey,
    /// The address that signs for the leg out of the pool.
    pub authority: Pubkey,
    /// The trader's account of the asset that is paid in.
    pub from: TokenAccount,
    /// The reserve account of asset A.
    pub token_acc_a: TokenAccount,
    /// The reserve account of asset B.
    pub token_acc_b: TokenAccount,
    /// The trader's account of the asset that is paid out.
    pub to: TokenAccount,
}

impl ProxySwapTransferToken {
    /// Out of reserve A to the trader, signed for by the pool's authority.
    pub fn from_authority_token_a_ctx(&self) -> (accounts: Transfer)
        ensures
            accounts == (Transfer {
                from: self.token_acc_a.key,
                to: self.to.key,
                authority: self.authority,
            }),
    {
        Transfer { from: self.token_acc_a.key, to: self.to.key, authority: self.authority }
    }

    /// From the trader into reserve A, signed by the trader.
    pub fn from_singer_token_a_ctx(&self) -> (accounts: Transfer)
        ensures
            accounts == (Transfer {
                from: self.from.key,
                to: self.token_acc_a.key,
                authority: self.signer,
            }),
    {
        Transfer { from: self.from.key, to: self.token_acc_a.key, authority: self.signer }
    }

    /// Out of reserve B to the trader, signed for by the pool's authority.
    pub fn from_authority_token_b_ctx(&self) -> (accounts: Transfer)
        ensures
            accounts == (Transfer {
                from: self.token_acc_b.key,
                to: self.to.key,
                authority: self.authority,
            }),
    {
        Transfer { from: self.token_acc_b.key, to: self.to.key, authority: self.authority }
    }

    /// From the trader into reserve B, signed by the trader.
    pub fn from_singer_token_b_ctx(&self) -> (accounts: Transfer)
        ensures
            accounts == (Transfer {
                from: self.from.key,
                to: self.token_acc_b.key,
                authority: self.signer,
            }),
    {
        Transfer { from: self.from.key, to: self.token_acc_b.key, authority: self.signer }
    }
}

/// The accounts of `add_token`.
#[derive(Clone, Copy, Debug, PartialEq, Eq)]
pub struct AddToken {
    /// The pool record.
    pub amm_account: Amm,
    /// Who signed the instruction.
    pub auth_key: Pubkey,
    /// The account that the deposit comes from.
    pub from: TokenAccount,
    /// The account that the deposit goes to.
    pub to: TokenAccount,
    /// The reserve account of asset A.
    pub token_acc_a: TokenAccount,
    /// The reserve account of asset B.
    pub token_acc_b: TokenAccount,
}

impl AddToken {
    /// From the depositor into the reserve, signed by the pool's owner.
    pub fn add_token_ctx(&self) -> (accounts: Transfer)
        ensures
            accounts == (Transfer {
                from: self.from.key,
                to: self.to.key,
                authority: self.auth_key,
            }),
    {
        Transfer { from: self.from.key, to: self.to.key, authority: self.auth_key }
    }
}

} // verus!
