use vstd::prelude::*;

verus! {

/// Why an operation on a pool was refused.
///
/// Every refusal is decided before anything is changed or moved.
#[derive(Clone, Copy, Debug, PartialEq, Eq, Structural)]
pub enum AmmError {
    /// The pool record has been initialized before.
    AlreadyInUse,
    /// The authority handed in is not the address derived from the pool's own address.
    InvalidProgramAddress,
    /// A reserve account is not owned by the pool's derived authority.
    InvalidOwner,
    /// A token account holds nothing.
    EmptySupply,
    /// The input is malformed.
    InvalidInput,
    /// The address of a swap token account is not the expected one.
    IncorrectSwapAccount,
    /// Both sides of the pool are of the same mint.
    RepeatedMint,
    /// A mint has a total supply of zero.
    InvalidSupply,
    /// The amount is zero, or more than a reserve's 64-bit balance can take in.
    InvalidAmount,
    /// The source account holds less than the raw amount that has to be paid in.
    InsufficientBalance,
    /// The amount is not greater than zero.
    InvalidAmmount,
    /// A token account is of a mint that the pool does not trade, or of the wrong one.
    InvalidMint,
    /// The signer is not the owner of the pool.
    InvalidSigner,
    /// A token account is not the pool's reserve account for its mint.
    InvalidTokenAccount,
}

} // verus!
