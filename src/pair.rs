//! Unordered token pairs, normalized so both orders of a swap meet in one key.
use crate::address::Address;
use crate::index::IndexKey;
use vstd::prelude::*;

verus! {

/// A token pair with the smaller address first.
#[derive(Clone, Copy, Debug, PartialEq, Eq, Structural)]
pub struct TokenPair {
    pub token_a: Address,
    pub token_b: Address,
}

/// The normalized pair of two tokens.
pub open spec fn normalized(a: Address, b: Address) -> TokenPair {
    if a@ < b@ {
        TokenPair { token_a: a, token_b: b }
    } else {
        TokenPair { token_a: b, token_b: a }
    }
}

/// Both orders of a pair give the same key.
pub proof fn lemma_normalized_symmetric(a: Address, b: Address)
    ensures
        normalized(a, b) == normalized(b, a),
{
    Address::lemma_eq(a, b);
}

impl TokenPair {
    /// The pair of `token_a` and `token_b`, smaller address first.
    pub fn new(token_a: Address, token_b: Address) -> (r: TokenPair)
        ensures
            r == normalized(token_a, token_b),
    {
        if token_a.lt(&token_b) {
            TokenPair { token_a, token_b }
        } else {
            TokenPair { token_a: token_b, token_b: token_a }
        }
    }
}

impl IndexKey for TokenPair {
    fn same_key(&self, other: &Self) -> (r: bool) {
        *self == *other
    }
}

} // verus!
