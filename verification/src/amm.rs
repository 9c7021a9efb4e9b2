use crate::accounts::{AddToken, InitializeAmm, ProxySwapTransferToken};
use crate::error::AmmError;
use crate::pubkey::{derive_authority, derived_view, program_address, Pubkey};
use crate::state::{Amm, Context, SwapTransfers, TokenTransfer, Transfer};
use crate::utils::{
    arbitary_amounts, lemma_pow10_positive, lemma_quotient_raw_units, lemma_raw_units_scale_up,
    normal_amount_fn, normalized, pow10, Decimal, Quantity,
};
use vstd::arithmetic::div_mod::{lemma_fundamental_div_mod, lemma_mod_bound};
use vstd::prelude::*;

verus! {

/// Whether `authority` is the address that was derived.
pub open spec fn is_derived_authority(authority: Pubkey, derived: Option<(Seq<u8>, u8)>) -> bool {
    match derived {
        Some((key, _)) => authority@ == key,
        None => false,
    }
}

/// The bump seed of the derived address, where `authority` is that address.
fn matching_bump_seed(authority: &Pubkey, derived: &Option<(Pubkey, u8)>) -> (bump_seed: Option<u8>)
    ensures
        bump_seed is Some == is_derived_authority(*authority, derived_view(*derived)),
        bump_seed matches Some(seed) ==> derived_view(*derived) matches Some((_, s)) && s == seed,
{
    match derived {
        Some((key, seed)) => {
            proof {
                Pubkey::lemma_view_injective(*authority, *key);
            }
            if *authority == *key {
                Some(*seed)
            } else {
                None
            }
        },
        None => None,
    }
}

/// The raw units that `amount` whole units of an asset with `decimals` decimals come to.
pub open spec fn required_raw(amount: u64, decimals: u8) -> nat {
    Quantity::whole(amount as nat).raw_units(decimals as nat)
}

/// The raw units that `amount` whole units come to: `amount * 10^decimals`.
pub proof fn lemma_required_raw(amount: u64, decimals: u8)
    ensures
        required_raw(amount, decimals) == amount * pow10(decimals as nat),
        amount > 0 ==> required_raw(amount, decimals) >= amount,
{
    lemma_raw_units_scale_up(Quantity::whole(amount as nat), decimals as nat);
    lemma_pow10_positive(decimals as nat);
    assert(amount > 0 ==> amount * pow10(decimals as nat) >= amount) by (nonlinear_arith)
        requires
            pow10(decimals as nat) >= 1,
    ;
}

/// The output reserve that a swap aims at, in raw units: the invariant divided by the input
/// reserve as it is once `amount` whole units have come in, rounded down to a raw unit.
pub open spec fn swap_output_reserve(
    k: Quantity,
    input_reserve: Quantity,
    amount: nat,
    output_decimals: nat,
) -> nat {
    k.quotient_raw_units(input_reserve.plus_whole(amount), output_decimals)
}

/// What a swap pays out, in raw units: what the output reserve holds above the reserve that
/// the swap aims at, and nothing where it holds less.
pub open spec fn swap_payout(
    k: Quantity,
    input_reserve: Quantity,
    amount: nat,
    output_reserve: Quantity,
) -> nat {
    let target = swap_output_reserve(k, input_reserve, amount, output_reserve.scale);
    if target <= output_reserve.units {
        (output_reserve.units - target) as nat
    } else {
        0
    }
}

/// The two raw amounts of a swap of `amount` whole units, what comes in and what goes out,
/// for a trader who holds `balance` raw units of the input asset.
fn swap_amounts(
    constant: u128,
    input_reserve: Decimal,
    output_reserve: Decimal,
    amount: u64,
    balance: u64,
) -> (r: Result<(u64, u64), AmmError>)
    requires
        amount > 0,
    ensures
        match r {
            Ok((deposit, payout)) => {
                &&& required_raw(amount, input_reserve.scale) <= balance
                &&& deposit == required_raw(amount, input_reserve.scale)
                &&& payout == swap_payout(
                    Quantity {
                        units: constant as nat,
                        scale: (input_reserve.scale + output_reserve.scale) as nat,
                    },
                    input_reserve@,
                    amount as nat,
                    output_reserve@,
                )
            },
            Err(e) => {
                &&& e == AmmError::InsufficientBalance
                &&& balance < required_raw(amount, input_reserve.scale)
            },
        },
{
    let required: u64 = match arbitary_amounts(Decimal::whole(amount), input_reserve.scale) {
        Some(raw) => raw,
        None => {
            return Err(AmmError::InsufficientBalance);
        },
    };
    if balance < required {
        return Err(AmmError::InsufficientBalance);
    }
    proof {
        lemma_required_raw(amount, input_reserve.scale);
    }
    let new_input: u128 = input_reserve.units as u128 + required as u128;
    let target: u128 = constant / new_input;
    proof {
        let k = Quantity {
            units: constant as nat,
            scale: (input_reserve.scale + output_reserve.scale) as nat,
        };
        let grown = input_reserve@.plus_whole(amount as nat);
        assert(grown.units == new_input);
        lemma_quotient_raw_units(k, grown, output_reserve.scale as nat);
    }
    let payout: u64 = if target <= output_reserve.units as u128 {
        output_reserve.units - (target as u64)
    } else {
        0
    };
    Ok((required, payout))
}

/// Whether two reserves cover the invariant `k`: it is less than the product that the
/// reserves would have with one more raw unit on each side.
pub open spec fn covers(k: Quantity, reserve_a: Quantity, reserve_b: Quantity) -> bool {
    k.units < (reserve_a.units + 1) * (reserve_b.units + 1)
}

/// The product of two reserves is covered by them.
pub proof fn lemma_product_is_covered(reserve_a: Quantity, reserve_b: Quantity)
    ensures
        covers(reserve_a.times(reserve_b), reserve_a, reserve_b),
        covers(reserve_a.times(reserve_b), reserve_b, reserve_a),
{
    let a = reserve_a.units;
    let b = reserve_b.units;
    assert(a * b < (a + 1) * (b + 1) && a * b < (b + 1) * (a + 1)) by (nonlinear_arith);
}

/// A swap leaves the invariant standing, up to the rounding of the payout.
///
/// Let a swap of `amount > 0` whole units take the input reserve to `grown` and the output
/// reserve to `left`. The product of `grown` and `left` is at most `k`, and falls short of it
/// by less than `grown.units` units of `10^-k.scale`: by less than the normalized input
/// reserve times one raw unit of the output asset. This holds if and only if the payout was
/// not cut off at zero, that is, if the output reserve held at least what the swap aims at.
pub proof fn lemma_swap_keeps_invariant(
    k: Quantity,
    input_reserve: Quantity,
    output_reserve: Quantity,
    amount: nat,
)
    requires
        k.scale == input_reserve.scale + output_reserve.scale,
        amount > 0,
    ensures
        ({
            let grown = input_reserve.plus_whole(amount);
            let payout = swap_payout(k, input_reserve, amount, output_reserve);
            let left = Quantity {
                units: (output_reserve.units - payout) as nat,
                scale: output_reserve.scale,
            };
            let product = grown.times(left);
            let target = swap_output_reserve(k, input_reserve, amount, output_reserve.scale);
            &&& payout <= output_reserve.units
            &&& product.scale == k.scale
            &&& (product.units <= k.units < product.units + grown.units) <==> target
                <= output_reserve.units
        }),
{
    let grown = input_reserve.plus_whole(amount);
    let n = grown.units;
    let out = output_reserve.units;
    let target = swap_output_reserve(k, input_reserve, amount, output_reserve.scale);
    lemma_pow10_positive(input_reserve.scale);
    assert(amount * pow10(input_reserve.scale) >= 1) by (nonlinear_arith)
        requires
            amount >= 1,
            pow10(input_reserve.scale) >= 1,
    ;
    lemma_quotient_raw_units(k, grown, output_reserve.scale);
    lemma_fundamental_div_mod(k.units as int, n as int);
    lemma_mod_bound(k.units as int, n as int);
    assert(n * target <= k.units < n * target + n);
    if target > out {
        assert(n * out + n <= n * target) by (nonlinear_arith)
            requires
                out + 1 <= target,
        ;
    }
}

/// Reserves that cover the invariant still do so after a swap, and the payout of the swap is
/// not cut off: the output reserve holds at least what the swap aims at.
pub proof fn lemma_swap_keeps_cover(
    k: Quantity,
    input_reserve: Quantity,
    output_reserve: Quantity,
    amount: nat,
)
    requires
        k.scale == input_reserve.scale + output_reserve.scale,
        amount > 0,
        covers(k, input_reserve, output_reserve),
    ensures
        ({
            let grown = input_reserve.plus_whole(amount);
            let payout = swap_payout(k, input_reserve, amount, output_reserve);
            let left = Quantity {
                units: (output_reserve.units - payout) as nat,
                scale: output_reserve.scale,
            };
            &&& swap_output_reserve(k, input_reserve, amount, output_reserve.scale)
                <= output_reserve.units
            &&& covers(k, grown, left)
        }),
{
    let grown = input_reserve.plus_whole(amount);
    let n = grown.units;
    let out = output_reserve.units;
    let target = swap_output_reserve(k, input_reserve, amount, output_reserve.scale);
    lemma_pow10_positive(input_reserve.scale);
    assert(amount * pow10(input_reserve.scale) >= 1) by (nonlinear_arith)
        requires
            amount >= 1,
            pow10(input_reserve.scale) >= 1,
    ;
    lemma_quotient_raw_units(k, grown, output_reserve.scale);
    lemma_fundamental_div_mod(k.units as int, n as int);
    lemma_mod_bound(k.units as int, n as int);
    assert(n * target <= k.units < n * target + n);
    assert((input_reserve.units + 1) * (out + 1) <= n * (out + 1)) by (nonlinear_arith)
        requires
            input_reserve.units + 1 <= n,
    ;
    if target > out {
        assert(n * (out + 1) <= n * target) by (nonlinear_arith)
            requires
                out + 1 <= target,
        ;
    }
    assert(n * target + n <= (n + 1) * (target + 1)) by (nonlinear_arith);
}

/// Why a swap is refused, if it is: the first of its conditions that does not hold.
pub open spec fn swap_failure(
    accounts: ProxySwapTransferToken,
    amount: u64,
    derived: Option<(Seq<u8>, u8)>,
) -> Option<AmmError> {
    let pool = accounts.amm_account;
    if amount == 0 {
        Some(AmmError::InvalidAmount)
    } else if !is_derived_authority(accounts.authority, derived) {
        Some(AmmError::InvalidProgramAddress)
    } else if accounts.from.mint == pool.mint_a {
        if accounts.token_acc_a.mint != pool.mint_a {
            Some(AmmError::InvalidMint)
        } else if accounts.from.amount < required_raw(amount, pool.token_a_decimal) {
            Some(AmmError::InsufficientBalance)
        } else {
            None
        }
    } else if accounts.from.mint != pool.mint_b || accounts.token_acc_b.mint != pool.mint_b {
        Some(AmmError::InvalidMint)
    } else if accounts.from.amount < required_raw(amount, pool.token_b_decimal) {
        Some(AmmError::InsufficientBalance)
    } else {
        None
    }
}

/// The decimals of the asset that the trader pays in.
pub open spec fn input_decimals(accounts: ProxySwapTransferToken) -> u8 {
    if accounts.from.mint == accounts.amm_account.mint_a {
        accounts.amm_account.token_a_decimal
    } else {
        accounts.amm_account.token_b_decimal
    }
}

/// The normalized reserve of the asset that the trader pays in, before the swap.
pub open spec fn input_reserve(accounts: ProxySwapTransferToken) -> Quantity {
    let pool = accounts.amm_account;
    if accounts.from.mint == pool.mint_a {
        normalized(accounts.token_acc_a.amount as nat, pool.token_a_decimal as nat)
    } else {
        normalized(accounts.token_acc_b.amount as nat, pool.token_b_decimal as nat)
    }
}

/// The normalized reserve of the asset that is paid out, before the swap.
pub open spec fn output_reserve(accounts: ProxySwapTransferToken) -> Quantity {
    let pool = accounts.amm_account;
    if accounts.from.mint == pool.mint_a {
        normalized(accounts.token_acc_b.amount as nat, pool.token_b_decimal as nat)
    } else {
        normalized(accounts.token_acc_a.amount as nat, pool.token_a_decimal as nat)
    }
}

/// The two legs of a swap that is not refused.
pub open spec fn swap_transfers(
    accounts: ProxySwapTransferToken,
    amount: u64,
    bump_seed: u8,
) -> SwapTransfers {
    let a_to_b = accounts.from.mint == accounts.amm_account.mint_a;
    SwapTransfers {
        deposit: TokenTransfer {
            accounts: Transfer {
                from: accounts.from.key,
                to: if a_to_b {
                    accounts.token_acc_a.key
                } else {
                    accounts.token_acc_b.key
                },
                authority: accounts.signer,
            },
            amount: required_raw(amount, input_decimals(accounts)) as u64,
        },
        payout: TokenTransfer {
            accounts: Transfer {
                from: if a_to_b {
                    accounts.token_acc_b.key
                } else {
                    accounts.token_acc_a.key
                },
                to: accounts.to.key,
                authority: accounts.authority,
            },
            amount: swap_payout(
                accounts.amm_account.invariant_k(),
                input_reserve(accounts),
                amount as nat,
                output_reserve(accounts),
            ) as u64,
        },
        bump_seed,
    }
}

/// What a swap answers, given the address that was derived for the pool.
pub open spec fn swap_outcome(
    accounts: ProxySwapTransferToken,
    amount: u64,
    derived: Option<(Seq<u8>, u8)>,
) -> Result<SwapTransfers, AmmError> {
    match (swap_failure(accounts, amount, derived), derived) {
        (Some(e), _) => Err(e),
        (None, Some((_, bump_seed))) => Ok(swap_transfers(accounts, amount, bump_seed)),
        (None, None) => Err(AmmError::InvalidProgramAddress),
    }
}

/// Decides a swap of `amount` whole units of the asset of `accounts.from`, given the address
/// `derived` for the pool: refuses it, or says which two transfers make it up. The pool
/// record stays as it is.
pub fn swap_with_authority(
    accounts: &ProxySwapTransferToken,
    amount: u64,
    derived: Option<(Pubkey, u8)>,
) -> (r: Result<SwapTransfers, AmmError>)
    requires
        accounts.amm_account.is_initialized,
    ensures
        r == swap_outcome(*accounts, amount, derived_view(derived)),
        amount == 0 ==> r matches Err(AmmError::InvalidAmount),
        amount > 0 && is_derived_authority(accounts.authority, derived_view(derived))
            && accounts.from.mint != accounts.amm_account.mint_a && accounts.from.mint
            != accounts.amm_account.mint_b ==> r matches Err(AmmError::InvalidMint),
        r matches Err(AmmError::InsufficientBalance) ==> accounts.from.amount < required_raw(
            amount,
            input_decimals(*accounts),
        ),
        r matches Ok(legs) ==> {
            &&& amount <= legs.deposit.amount <= accounts.from.amount
            &&& legs.deposit.amount == required_raw(amount, input_decimals(*accounts))
            &&& legs.payout.amount == swap_payout(
                accounts.amm_account.invariant_k(),
                input_reserve(*accounts),
                amount as nat,
                output_reserve(*accounts),
            )
        },
{
    if amount == 0 {
        return Err(AmmError::InvalidAmount);
    }
    let bump_seed: u8 = match matching_bump_seed(&accounts.authority, &derived) {
        Some(seed) => seed,
        None => {
            return Err(AmmError::InvalidProgramAddress);
        },
    };
    let pool = &accounts.amm_account;
    let normal_a = normal_amount_fn(accounts.token_acc_a.amount, pool.token_a_decimal);
    let normal_b = normal_amount_fn(accounts.token_acc_b.amount, pool.token_b_decimal);
    if accounts.from.mint == pool.mint_a {
        if accounts.token_acc_a.mint != pool.mint_a {
            return Err(AmmError::InvalidMint);
        }
        proof {
            lemma_required_raw(amount, pool.token_a_decimal);
        }
        match swap_amounts(pool.constant, normal_a, normal_b, amount, accounts.from.amount) {
            Ok((deposit, payout)) => Ok(
                SwapTransfers {
                    deposit: TokenTransfer {
                        accounts: accounts.from_singer_token_a_ctx(),
                        amount: deposit,
                    },
                    payout: TokenTransfer {
                        accounts: accounts.from_authority_token_b_ctx(),
                        amount: payout,
                    },
                    bump_seed,
                },
            ),
            Err(e) => Err(e),
        }
    } else {
        if accounts.from.mint != pool.mint_b {
            return Err(AmmError::InvalidMint);
        }
        if accounts.token_acc_b.mint != pool.mint_b {
            return Err(AmmError::InvalidMint);
        }
        proof {
            lemma_required_raw(amount, pool.token_b_decimal);
        }
        match swap_amounts(pool.constant, normal_b, normal_a, amount, accounts.from.amount) {
            Ok((deposit, payout)) => Ok(
                SwapTransfers {
                    deposit: TokenTransfer {
                        accounts: accounts.from_singer_token_b_ctx(),
                        amount: deposit,
                    },
                    payout: TokenTransfer {
                        accounts: accounts.from_authority_token_a_ctx(),
                        amount: payout,
                    },
                    bump_seed,
                },
            ),
            Err(e) => Err(e),
        }
    }
}

/// Decides a swap of `amount` whole units of the asset of the trader's account `from`:
/// refuses it, or says which two transfers make it up. The pool's signing address is derived
/// anew from the pool's address and the program. The pool record stays as it is.
pub fn swap_transfer_token(ctx: &Context<ProxySwapTransferToken>, amount: u64) -> (r: Result<
    SwapTransfers,
    AmmError,
>)
    requires
        ctx.accounts.amm_account.is_initialized,
    ensures
        r == swap_outcome(
            ctx.accounts,
            amount,
            program_address(ctx.accounts.amm_key@, ctx.program_id@),
        ),
        amount == 0 ==> r matches Err(AmmError::InvalidAmount),
        r matches Err(AmmError::InsufficientBalance) ==> ctx.accounts.from.amount < required_raw(
            amount,
            input_decimals(ctx.accounts),
        ),
        r matches Ok(legs) ==> {
            &&& amount <= legs.deposit.amount <= ctx.accounts.from.amount
            &&& legs.deposit.amount == required_raw(amount, input_decimals(ctx.accounts))
            &&& legs.payout.amount == swap_payout(
                ctx.accounts.amm_account.invariant_k(),
                input_reserve(ctx.accounts),
                amount as nat,
                output_reserve(ctx.accounts),
            )
        },
{
    let derived = derive_authority(&ctx.accounts.amm_key, &ctx.program_id);
    swap_with_authority(&ctx.accounts, amount, derived)
}

/// The pool's new invariant and the raw amount of a deposit of `amount` whole units into
/// `reserve`, whose other side is `other`.
fn deposit_amounts(reserve: Decimal, other: Decimal, amount: u64) -> (r: Result<
    (u64, u128),
    AmmError,
>)
    requires
        amount > 0,
    ensures
        match r {
            Ok((raw, constant)) => {
                &&& reserve.units + required_raw(amount, reserve.scale) <= u64::MAX
                &&& raw == required_raw(amount, reserve.scale)
                &&& constant == reserve@.plus_whole(amount as nat).times(other@).units
            },
            Err(e) => {
                &&& e == AmmError::InvalidAmount
                &&& reserve.units + required_raw(amount, reserve.scale) > u64::MAX
            },
        },
{
    proof {
        lemma_required_raw(amount, reserve.scale);
    }
    let raw: u64 = match arbitary_amounts(Decimal::whole(amount), reserve.scale) {
        Some(raw) => raw,
        None => {
            return Err(AmmError::InvalidAmount);
        },
    };
    let grown: u64 = match reserve.units.checked_add(raw) {
        Some(grown) => grown,
        None => {
            return Err(AmmError::InvalidAmount);
        },
    };
    assert(grown * other.units <= u128::MAX) by (nonlinear_arith)
        requires
            grown <= u64::MAX,
            other.units <= u64::MAX,
    ;
    Ok((raw, (grown as u128) * (other.units as u128)))
}

/// Why a deposit is refused, if it is: the first of its conditions that does not hold.
pub open spec fn add_token_failure(accounts: AddToken, amount: u64) -> Option<AmmError> {
    let pool = accounts.amm_account;
    if pool.auth_key != accounts.auth_key {
        Some(AmmError::InvalidSigner)
    } else if amount == 0 {
        Some(AmmError::InvalidAmount)
    } else if pool.mint_a == accounts.from.mint {
        if accounts.to.mint != accounts.from.mint {
            Some(AmmError::InvalidMint)
        } else if accounts.to.key != pool.token_a || accounts.token_acc_a.key != pool.token_a {
            Some(AmmError::InvalidTokenAccount)
        } else if accounts.token_acc_a.amount + required_raw(amount, pool.token_a_decimal)
            > u64::MAX {
            Some(AmmError::InvalidAmount)
        } else {
            None
        }
    } else if pool.mint_b != accounts.from.mint || accounts.to.mint != accounts.from.mint {
        Some(AmmError::InvalidMint)
    } else if accounts.to.key != pool.token_b || accounts.token_acc_b.key != pool.token_b {
        Some(AmmError::InvalidTokenAccount)
    } else if accounts.token_acc_b.amount + required_raw(amount, pool.token_b_decimal)
        > u64::MAX {
        Some(AmmError::InvalidAmount)
    } else {
        None
    }
}

/// The invariant that a deposit leaves: the product of the two normalized reserves, with
/// `amount` added to the one that the deposit goes to.
pub open spec fn add_token_invariant(accounts: AddToken, amount: u64) -> Quantity {
    let pool = accounts.amm_account;
    let reserve_a = normalized(accounts.token_acc_a.amount as nat, pool.token_a_decimal as nat);
    let reserve_b = normalized(accounts.token_acc_b.amount as nat, pool.token_b_decimal as nat);
    if pool.mint_a == accounts.from.mint {
        reserve_a.plus_whole(amount as nat).times(reserve_b)
    } else {
        reserve_a.times(reserve_b.plus_whole(amount as nat))
    }
}

/// The transfer that carries a deposit out.
pub open spec fn add_token_transfer(accounts: AddToken, amount: u64) -> TokenTransfer {
    let pool = accounts.amm_account;
    TokenTransfer {
        accounts: Transfer {
            from: accounts.from.key,
            to: accounts.to.key,
            authority: accounts.auth_key,
        },
        amount: if pool.mint_a == accounts.from.mint {
            required_raw(amount, pool.token_a_decimal) as u64
        } else {
            required_raw(amount, pool.token_b_decimal) as u64
        },
    }
}

/// Decides a deposit of `amount` whole units by the pool's owner into the reserve of the
/// asset of the account `from`: refuses it and leaves the pool as it is, or sets the
/// pool's invariant to the product of the normalized reserves with the deposit added, and
/// says which transfer carries the deposit out.
pub fn add_token(ctx: &mut Context<AddToken>, amount: u64) -> (r: Result<TokenTransfer, AmmError>)
    requires
        old(ctx).accounts.amm_account.is_initialized,
    ensures
        match r {
            Ok(deposit) => {
                &&& add_token_failure(old(ctx).accounts, amount) is None
                &&& deposit == add_token_transfer(old(ctx).accounts, amount)
                &&& deposit.amount >= amount
                &&& final(ctx).accounts.amm_account.invariant_k() == add_token_invariant(
                    old(ctx).accounts,
                    amount,
                )
                &&& *final(ctx) == (Context {
                    accounts: AddToken {
                        amm_account: Amm {
                            constant: final(ctx).accounts.amm_account.constant,
                            ..old(ctx).accounts.amm_account
                        },
                        ..old(ctx).accounts
                    },
                    ..*old(ctx)
                })
            },
            Err(e) => {
                &&& add_token_failure(old(ctx).accounts, amount) == Some(e)
                &&& *final(ctx) == *old(ctx)
            },
        },
        old(ctx).accounts.amm_account.auth_key != old(ctx).accounts.auth_key ==> r matches Err(
            AmmError::InvalidSigner,
        ),
        old(ctx).accounts.amm_account.wf() ==> final(ctx).accounts.amm_account.wf(),
{
    if ctx.accounts.amm_account.auth_key != ctx.accounts.auth_key {
        return Err(AmmError::InvalidSigner);
    }
    if amount == 0 {
        return Err(AmmError::InvalidAmount);
    }
    let normal_a = normal_amount_fn(
        ctx.accounts.token_acc_a.amount,
        ctx.accounts.amm_account.token_a_decimal,
    );
    let normal_b = normal_amount_fn(
        ctx.accounts.token_acc_b.amount,
        ctx.accounts.amm_account.token_b_decimal,
    );
    let amounts = if ctx.accounts.amm_account.mint_a == ctx.accounts.from.mint {
        if ctx.accounts.to.mint != ctx.accounts.from.mint {
            return Err(AmmError::InvalidMint);
        }
        if ctx.accounts.to.key != ctx.accounts.amm_account.token_a {
            return Err(AmmError::InvalidTokenAccount);
        }
        if ctx.accounts.token_acc_a.key != ctx.accounts.amm_account.token_a {
            return Err(AmmError::InvalidTokenAccount);
        }
        deposit_amounts(normal_a, normal_b, amount)
    } else {
        if ctx.accounts.amm_account.mint_b != ctx.accounts.from.mint {
            return Err(AmmError::InvalidMint);
        }
        if ctx.accounts.to.mint != ctx.accounts.from.mint {
            return Err(AmmError::InvalidMint);
        }
        if ctx.accounts.to.key != ctx.accounts.amm_account.token_b {
            return Err(AmmError::InvalidTokenAccount);
        }
        if ctx.accounts.token_acc_b.key != ctx.accounts.amm_account.token_b {
            return Err(AmmError::InvalidTokenAccount);
        }
        proof {
            let grown = normal_b@.plus_whole(amount as nat).units;
            assert(grown * normal_a@.units == normal_a@.units * grown) by (nonlinear_arith);
        }
        deposit_amounts(normal_b, normal_a, amount)
    };
    match amounts {
        Ok((raw, constant)) => {
            proof {
                lemma_required_raw(amount, ctx.accounts.amm_account.token_a_decimal);
                lemma_required_raw(amount, ctx.accounts.amm_account.token_b_decimal);
            }
            ctx.accounts.amm_account.constant = constant;
            Ok(TokenTransfer { accounts: ctx.accounts.add_token_ctx(), amount: raw })
        },
        Err(e) => Err(e),
    }
}

/// Why setting a pool up is refused, if it is: the first of its conditions that does not
/// hold.
pub open spec fn initialize_failure(
    accounts: InitializeAmm,
    derived: Option<(Seq<u8>, u8)>,
) -> Option<AmmError> {
    if accounts.amm_account.is_initialized {
        Some(AmmError::AlreadyInUse)
    } else if !is_derived_authority(accounts.authority, derived) {
        Some(AmmError::InvalidProgramAddress)
    } else if accounts.authority != accounts.token_a.owner || accounts.authority
        != accounts.token_b.owner {
        Some(AmmError::InvalidOwner)
    } else if accounts.token_a.mint == accounts.token_b.mint || accounts.mint_a.key
        == accounts.mint_b.key {
        Some(AmmError::RepeatedMint)
    } else if accounts.mint_a.supply == 0 || accounts.mint_b.supply == 0 {
        Some(AmmError::InvalidSupply)
    } else {
        None
    }
}

/// The record of a pool that has just been set up.
pub open spec fn initialized_pool(accounts: InitializeAmm) -> Amm {
    Amm {
        auth_key: accounts.signer,
        token_a: accounts.token_a.key,
        token_b: accounts.token_b.key,
        mint_a: accounts.mint_a.key,
        mint_b: accounts.mint_b.key,
        token_a_decimal: accounts.mint_a.decimals,
        token_b_decimal: accounts.mint_b.decimals,
        constant: (accounts.token_a.amount * accounts.token_b.amount) as u128,
        is_initialized: true,
    }
}

/// Sets a pool up, given the address `derived` for it: refuses and leaves everything as it
/// is, or fills the pool record in. The invariant is then exactly the product of the two
/// normalized reserves.
pub fn initialize_with_authority(accounts: &mut InitializeAmm, derived: Option<(Pubkey, u8)>) -> (r:
    Result<(), AmmError>)
    ensures
        match r {
            Ok(()) => {
                &&& initialize_failure(*old(accounts), derived_view(derived)) is None
                &&& *final(accounts) == (InitializeAmm {
                    amm_account: initialized_pool(*old(accounts)),
                    ..*old(accounts)
                })
                &&& final(accounts).amm_account.invariant_k() == normalized(
                    old(accounts).token_a.amount as nat,
                    old(accounts).mint_a.decimals as nat,
                ).times(
                    normalized(
                        old(accounts).token_b.amount as nat,
                        old(accounts).mint_b.decimals as nat,
                    ),
                )
                &&& final(accounts).amm_account.wf()
            },
            Err(e) => {
                &&& initialize_failure(*old(accounts), derived_view(derived)) == Some(e)
                &&& *final(accounts) == *old(accounts)
            },
        },
        r is Ok ==> {
            &&& old(accounts).mint_a.key != old(accounts).mint_b.key
            &&& old(accounts).token_a.mint != old(accounts).token_b.mint
            &&& old(accounts).mint_a.supply > 0
            &&& old(accounts).mint_b.supply > 0
        },
        r matches Err(AmmError::RepeatedMint) ==> old(accounts).mint_a.key == old(
            accounts,
        ).mint_b.key || old(accounts).token_a.mint == old(accounts).token_b.mint,
        r matches Err(AmmError::InvalidSupply) ==> old(accounts).mint_a.supply == 0 || old(
            accounts,
        ).mint_b.supply == 0,
{
    if accounts.amm_account.is_initialized {
        return Err(AmmError::AlreadyInUse);
    }
    if matching_bump_seed(&accounts.authority, &derived).is_none() {
        return Err(AmmError::InvalidProgramAddress);
    }
    if accounts.authority != accounts.token_a.owner {
        return Err(AmmError::InvalidOwner);
    }
    if accounts.authority != accounts.token_b.owner {
        return Err(AmmError::InvalidOwner);
    }
    if accounts.token_a.mint == accounts.token_b.mint {
        return Err(AmmError::RepeatedMint);
    }
    if accounts.mint_a.key == accounts.mint_b.key {
        return Err(AmmError::RepeatedMint);
    }
    if accounts.mint_a.supply == 0 {
        return Err(AmmError::InvalidSupply);
    }
    if accounts.mint_b.supply == 0 {
        return Err(AmmError::InvalidSupply);
    }
    let normal_a = normal_amount_fn(accounts.token_a.amount, accounts.mint_a.decimals);
    let normal_b = normal_amount_fn(accounts.token_b.amount, accounts.mint_b.decimals);
    assert(normal_a.units * normal_b.units <= u128::MAX) by (nonlinear_arith)
        requires
            normal_a.units <= u64::MAX,
            normal_b.units <= u64::MAX,
    ;
    accounts.amm_account = Amm {
        auth_key: accounts.signer,
        token_a: accounts.token_a.key,
        token_b: accounts.token_b.key,
        mint_a: accounts.mint_a.key,
        mint_b: accounts.mint_b.key,
        token_a_decimal: accounts.mint_a.decimals,
        token_b_decimal: accounts.mint_b.decimals,
        constant: (normal_a.units as u128) * (normal_b.units as u128),
        is_initialized: true,
    };
    Ok(())
}

/// Sets a pool up: refuses and leaves everything as it is, or fills the pool record in. The
/// address that is to own the reserves is held against the one derived from the pool's
/// address and the program.
pub fn initialize(ctx: &mut Context<InitializeAmm>) -> (r: Result<(), AmmError>)
    ensures
        match r {
            Ok(()) => {
                &&& initialize_failure(
                    old(ctx).accounts,
                    program_address(old(ctx).accounts.amm_key@, old(ctx).program_id@),
                ) is None
                &&& *final(ctx) == (Context {
                    accounts: InitializeAmm {
                        amm_account: initialized_pool(old(ctx).accounts),
                        ..old(ctx).accounts
                    },
                    ..*old(ctx)
                })
                &&& final(ctx).accounts.amm_account.invariant_k() == normalized(
                    old(ctx).accounts.token_a.amount as nat,
                    old(ctx).accounts.mint_a.decimals as nat,
                ).times(
                    normalized(
                        old(ctx).accounts.token_b.amount as nat,
                        old(ctx).accounts.mint_b.decimals as nat,
                    ),
                )
                &&& final(ctx).accounts.amm_account.wf()
            },
            Err(e) => {
                &&& initialize_failure(
                    old(ctx).accounts,
                    program_address(old(ctx).accounts.amm_key@, old(ctx).program_id@),
                ) == Some(e)
                &&& *final(ctx) == *old(ctx)
            },
        },
        r is Ok ==> {
            &&& old(ctx).accounts.mint_a.key != old(ctx).accounts.mint_b.key
            &&& old(ctx).accounts.token_a.mint != old(ctx).accounts.token_b.mint
            &&& old(ctx).accounts.mint_a.supply > 0
            &&& old(ctx).accounts.mint_b.supply > 0
        },
{
    let derived = derive_authority(&ctx.accounts.amm_key, &ctx.program_id);
    initialize_with_authority(&mut ctx.accounts, derived)
}

} // verus!
