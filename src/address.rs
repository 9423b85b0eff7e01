//! 160-bit account and token addresses.
use crate::uint::{be_bytes, be_value, lemma_view_injective, U256};
use vstd::arithmetic::power2::{lemma2_to64, lemma_pow2_adds, pow2};
use vstd::prelude::*;

verus! {

/// 2^160, one more than the largest address.
pub open spec fn address_modulus() -> nat {
    pow2(160)
}

/// Bytes spell a number below 256 to the power of their count.
pub proof fn lemma_be_value_bound(s: Seq<u8>)
    ensures
        be_value(s) < pow2(8 * s.len()),
    decreases s.len(),
{
    if s.len() > 0 {
        let n = (s.len() - 1) as nat;
        lemma_be_value_bound(s.drop_last());
        lemma_pow2_adds(8 * n, 8);
        lemma2_to64();
        let x = be_value(s.drop_last());
        let p = pow2(8 * n);
        assert(x * 256 + (s.last() as nat) < p * 256) by (nonlinear_arith)
            requires
                x < p,
                s.last() < 256,
        ;
        assert(8 * n + 8 == 8 * s.len());
        assert(be_value(s) == x * 256 + (s.last() as nat));
    } else {
        lemma2_to64();
    }
}

/// An address: a number below 2^160, ordered as numbers are.
#[derive(Clone, Copy, Debug, PartialEq, Eq, Structural)]
pub struct Address {
    word: U256,
}

impl View for Address {
    type V = nat;

    closed spec fn view(&self) -> nat {
        self.word@
    }
}

impl Address {
    #[verifier::type_invariant]
    spec fn fits(&self) -> bool {
        self.word@ < address_modulus()
    }

    /// Two addresses are equal exactly when their numbers are.
    pub proof fn lemma_eq(a: Address, b: Address)
        ensures
            (a == b) <==> (a@ == b@),
    {
        if a@ == b@ {
            lemma_view_injective(a.word, b.word);
        }
    }

    /// The zero address.
    pub fn zero() -> (r: Address)
        ensures
            r@ == 0,
    {
        proof {
            lemma2_to64();
            lemma_pow2_adds(64, 96);
            lemma_pow2_adds(32, 64);
        }
        Address { word: U256::zero() }
    }

    /// The address that 20 bytes spell, most significant first.
    pub fn new(bytes: [u8; 20]) -> (r: Address)
        ensures
            r@ == be_value(bytes@),
    {
        proof {
            lemma_be_value_bound(bytes@);
        }
        Address { word: U256::from_be_slice(bytes.as_slice()) }
    }

    /// The address holding a number below 2^160.
    pub fn from_word(w: U256) -> (r: Address)
        requires
            w@ < address_modulus(),
        ensures
            r@ == w@,
    {
        Address { word: w }
    }

    /// The address as a 256-bit word.
    pub fn word(&self) -> (r: U256)
        ensures
            r@ == self@,
            r@ < address_modulus(),
    {
        proof {
            use_type_invariant(self);
        }
        self.word
    }

    /// The 20 bytes of the address, most significant first.
    pub fn to_bytes(&self) -> (r: Vec<u8>)
        ensures
            r@ == be_bytes(self@, 32).subrange(12, 32),
    {
        let full = self.word.to_be_bytes();
        let mut v: Vec<u8> = Vec::new();
        let mut i: usize = 12;
        while i < 32
            invariant
                12 <= i <= 32,
                full@ == be_bytes(self@, 32),
                v@ == full@.subrange(12, i as int),
            decreases 32 - i,
        {
            v.push(full[i]);
            i = i + 1;
            assert(v@ =~= full@.subrange(12, i as int));
        }
        v
    }

    /// Whether this is the zero address.
    pub fn is_zero(&self) -> (r: bool)
        ensures
            r == (self@ == 0),
    {
        self.word.is_zero()
    }

    /// Whether this address is below `other`.
    pub fn lt(&self, other: &Address) -> (r: bool)
        ensures
            r == (self@ < other@),
    {
        self.word.lt(&other.word)
    }
}

} // verus!
