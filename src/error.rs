use vstd::prelude::*;

verus! {

/// Why an operation on the game book was refused.
#[derive(Clone, Debug, PartialEq)]
pub enum ContractError {
    /// The caller does not hold the admin role.
    Unauthorized {},
    /// A party of the game is on the blacklist.
    Blacklisted { addr: String },
    /// A game between these two players, in this order, is already open.
    DuplicateGame {},
    /// No open game between these two players, in this order.
    GameNotFound {},
    /// The moves did not decide a result; the resolver is total, so this does not occur.
    GameResultNotFound {},
    /// A resolved game could not be removed; removal cannot fail, so this does not occur.
    CannotFinishGame {},
    /// The host named itself as opponent.
    GameAgainstYourself {},
}

} // verus!
