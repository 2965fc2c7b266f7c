//! Prizes and the winners paired with them.

use vstd::prelude::*;

verus! {

/// A reference to a non-fungible token offered as a prize: the token's id and the
/// account of the contract that registers it, as last verified.
#[derive(Clone, Debug, PartialEq, Eq)]
pub struct JsonToken {
    pub token_id: String,
    pub owner_id: String,
}

impl JsonToken {
    pub fn new(token_id: String, owner_id: String) -> (r: JsonToken)
        ensures
            r.token_id == token_id,
            r.owner_id == owner_id,
    {
        JsonToken { token_id, owner_id }
    }

    /// An equal copy of this token reference.
    pub fn duplicate(&self) -> (r: JsonToken)
        ensures
            r == *self,
    {
        JsonToken { token_id: self.token_id.clone(), owner_id: self.owner_id.clone() }
    }
}

/// A drawn winner and the prize it receives.
#[derive(Clone, Debug, PartialEq, Eq)]
pub struct Winner {
    pub winner_wallet_account_id: String,
    pub prize: JsonToken,
}

impl Winner {
    /// An equal copy of this pairing.
    pub fn duplicate(&self) -> (r: Winner)
        ensures
            r == *self,
    {
        Winner {
            winner_wallet_account_id: self.winner_wallet_account_id.clone(),
            prize: self.prize.duplicate(),
        }
    }
}

} // verus!
