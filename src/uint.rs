//! Unsigned 256-bit words, held as four little-endian 64-bit limbs.
//!
//! The arithmetic is carried out by the `Uint` type of the `ruint` crate,
//! which `stylus_sdk` re-exports as `alloy_primitives::U256`; each wrapper
//! below states what the operation it makes returns.
use stylus_sdk::alloy_primitives::U256 as RawWord;
use vstd::arithmetic::div_mod::lemma_fundamental_div_mod_converse;
use vstd::arithmetic::power2::{lemma2_to64, lemma_pow2_adds, lemma_pow2_strictly_increases, pow2};
use vstd::prelude::*;

verus! {

/// 2^64, the base of one limb.
pub open spec fn limb_base() -> nat {
    0x1_0000_0000_0000_0000nat
}

/// 2^256, one more than the largest word.
pub open spec fn word_modulus() -> nat {
    limb_base() * limb_base() * limb_base() * limb_base()
}

/// 2^256 as a power of two.
pub proof fn lemma_word_modulus()
    ensures
        word_modulus() == pow2(256),
        limb_base() == pow2(64),
{
    lemma2_to64();
    lemma_pow2_adds(64, 64);
    lemma_pow2_adds(128, 64);
    lemma_pow2_adds(192, 64);
    assert(limb_base() * limb_base() * limb_base() * limb_base() == pow2(64) * pow2(64) * pow2(64)
        * pow2(64));
}

/// The number that a sequence of bytes spells, most significant byte first.
pub open spec fn be_value(s: Seq<u8>) -> nat
    decreases s.len(),
{
    if s.len() == 0 {
        0
    } else {
        be_value(s.drop_last()) * 256 + s.last() as nat
    }
}

/// The `n` bytes of `v` modulo 256^n, most significant first.
pub open spec fn be_bytes(v: nat, n: nat) -> Seq<u8>
    decreases n,
{
    if n == 0 {
        Seq::empty()
    } else {
        be_bytes(v / 256, (n - 1) as nat).push((v % 256) as u8)
    }
}

/// A 256-bit unsigned integer; `l0` is the least significant limb. The limbs
/// are declared most significant first, so the derived order is numeric.
#[derive(Clone, Copy, Debug, PartialEq, Eq, PartialOrd, Ord, Structural)]
pub struct U256 {
    pub l3: u64,
    pub l2: u64,
    pub l1: u64,
    pub l0: u64,
}

impl View for U256 {
    type V = nat;

    open spec fn view(&self) -> nat {
        self.l0 as nat + limb_base() * (self.l1 as nat + limb_base() * (self.l2 as nat + limb_base()
            * (self.l3 as nat)))
    }
}

proof fn lemma_split(x: nat, lo: u64, hi: nat)
    requires
        x == lo as nat + limb_base() * hi,
    ensures
        x % limb_base() == lo as nat,
        x / limb_base() == hi,
{
    lemma_fundamental_div_mod_converse(x as int, limb_base() as int, hi as int, lo as int);
}

/// Two words with the same value are the same word.
pub proof fn lemma_view_injective(a: U256, b: U256)
    requires
        a@ == b@,
    ensures
        a == b,
{
    let ra2 = a.l2 as nat + limb_base() * (a.l3 as nat);
    let rb2 = b.l2 as nat + limb_base() * (b.l3 as nat);
    let ra1 = a.l1 as nat + limb_base() * ra2;
    let rb1 = b.l1 as nat + limb_base() * rb2;
    lemma_split(a@, a.l0, ra1);
    lemma_split(b@, b.l0, rb1);
    lemma_split(ra1, a.l1, ra2);
    lemma_split(rb1, b.l1, rb2);
    lemma_split(ra2, a.l2, a.l3 as nat);
    lemma_split(rb2, b.l2, b.l3 as nat);
}

proof fn lemma_digit_bound(lo: u64, hi: nat, k: nat)
    requires
        hi < k,
    ensures
        lo as nat + limb_base() * hi < limb_base() * k,
{
    assert(lo as nat + limb_base() * hi < limb_base() * k) by (nonlinear_arith)
        requires
            lo < limb_base(),
            hi + 1 <= k,
    ;
}

/// Every word is below 2^256.
pub proof fn lemma_view_bound(a: U256)
    ensures
        a@ < word_modulus(),
{
    let b = limb_base();
    lemma_digit_bound(a.l2, a.l3 as nat, b);
    lemma_digit_bound(a.l1, a.l2 as nat + b * (a.l3 as nat), b * b);
    lemma_digit_bound(a.l0, a.l1 as nat + b * (a.l2 as nat + b * (a.l3 as nat)), b * (b * b));
    assert(b * (b * (b * b)) == b * b * b * b) by (nonlinear_arith);
}

impl U256 {
    /// The word 0.
    pub fn zero() -> (r: U256)
        ensures
            r@ == 0,
    {
        U256 { l0: 0, l1: 0, l2: 0, l3: 0 }
    }

    /// The word holding `x`.
    pub fn from_u64(x: u64) -> (r: U256)
        ensures
            r@ == x,
    {
        U256 { l0: x, l1: 0, l2: 0, l3: 0 }
    }

    /// The word holding `x`.
    pub fn from_u128(x: u128) -> (r: U256)
        ensures
            r@ == x,
    {
        let lo = (x % 0x1_0000_0000_0000_0000u128) as u64;
        let hi = (x / 0x1_0000_0000_0000_0000u128) as u64;
        let r = U256 { l0: lo, l1: hi, l2: 0, l3: 0 };
        assert(x == lo as nat + limb_base() * hi);
        r
    }

    /// Whether the word is 0.
    pub fn is_zero(&self) -> (r: bool)
        ensures
            r == (self@ == 0),
    {
        self.l0 == 0 && self.l1 == 0 && self.l2 == 0 && self.l3 == 0
    }

    /// The value of a word below 2^64.
    pub fn low_u64(&self) -> (r: u64)
        requires
            self@ < limb_base(),
        ensures
            r == self@,
    {
        proof {
            lemma_split(self@, self.l0, (self@ / limb_base()) as nat);
        }
        self.l0
    }

    /// The value of a word below 2^128.
    pub fn low_u128(&self) -> (r: u128)
        requires
            self@ < limb_base() * limb_base(),
        ensures
            r == self@,
    {
        let ghost rest = self.l2 as nat + limb_base() * (self.l3 as nat);
        proof {
            let hi = (self@ / limb_base()) as nat;
            lemma_split(self@, self.l0, self.l1 as nat + limb_base() * rest);
            assert(hi < limb_base()) by (nonlinear_arith)
                requires
                    self@ < limb_base() * limb_base(),
                    hi == self@ / limb_base(),
                    limb_base() > 0,
            ;
            lemma_split(hi, self.l1, rest);
            assert(rest == 0) by (nonlinear_arith)
                requires
                    rest == hi / limb_base(),
                    hi < limb_base(),
            ;
        }
        self.l0 as u128 + (self.l1 as u128) * 0x1_0000_0000_0000_0000u128
    }

    /// Relies on `Uint::checked_add`: the sum, or `None` where it does not fit 256 bits.
    #[verifier::external_body]
    pub(crate) fn checked_add(self, rhs: U256) -> (r: Option<U256>)
        ensures
            r matches Some(s) ==> s@ == self@ + rhs@,
            r.is_none() <==> self@ + rhs@ >= word_modulus(),
    {
        let r = RawWord::from_limbs([self.l0, self.l1, self.l2, self.l3])
            .checked_add(RawWord::from_limbs([rhs.l0, rhs.l1, rhs.l2, rhs.l3]));
        r.map(|w| {
            let l = w.into_limbs();
            U256 { l0: l[0], l1: l[1], l2: l[2], l3: l[3] }
        })
    }

    /// Relies on `Uint::checked_sub`: the difference, or `None` where it would be negative.
    #[verifier::external_body]
    pub(crate) fn checked_sub(self, rhs: U256) -> (r: Option<U256>)
        ensures
            r matches Some(s) ==> s@ == self@ - rhs@,
            r.is_none() <==> self@ < rhs@,
    {
        let r = RawWord::from_limbs([self.l0, self.l1, self.l2, self.l3])
            .checked_sub(RawWord::from_limbs([rhs.l0, rhs.l1, rhs.l2, rhs.l3]));
        r.map(|w| {
            let l = w.into_limbs();
            U256 { l0: l[0], l1: l[1], l2: l[2], l3: l[3] }
        })
    }

    /// Relies on `Uint::checked_mul`: the product, or `None` where it does not fit 256 bits.
    #[verifier::external_body]
    pub(crate) fn checked_mul(self, rhs: U256) -> (r: Option<U256>)
        ensures
            r matches Some(s) ==> s@ == self@ * rhs@,
            r.is_none() <==> self@ * rhs@ >= word_modulus(),
    {
        let r = RawWord::from_limbs([self.l0, self.l1, self.l2, self.l3])
            .checked_mul(RawWord::from_limbs([rhs.l0, rhs.l1, rhs.l2, rhs.l3]));
        r.map(|w| {
            let l = w.into_limbs();
            U256 { l0: l[0], l1: l[1], l2: l[2], l3: l[3] }
        })
    }

    /// Relies on `Uint::checked_div`: the floor of the quotient, or `None` for a zero divisor.
    #[verifier::external_body]
    pub(crate) fn checked_div(self, rhs: U256) -> (r: Option<U256>)
        ensures
            r matches Some(s) ==> s@ == self@ / rhs@,
            r.is_none() <==> rhs@ == 0,
    {
        let r = RawWord::from_limbs([self.l0, self.l1, self.l2, self.l3])
            .checked_div(RawWord::from_limbs([rhs.l0, rhs.l1, rhs.l2, rhs.l3]));
        r.map(|w| {
            let l = w.into_limbs();
            U256 { l0: l[0], l1: l[1], l2: l[2], l3: l[3] }
        })
    }

    /// Relies on `Uint::checked_rem`: the remainder, or `None` for a zero divisor.
    #[verifier::external_body]
    pub(crate) fn checked_rem(self, rhs: U256) -> (r: Option<U256>)
        ensures
            r matches Some(s) ==> s@ == self@ % rhs@,
            r.is_none() <==> rhs@ == 0,
    {
        let r = RawWord::from_limbs([self.l0, self.l1, self.l2, self.l3])
            .checked_rem(RawWord::from_limbs([rhs.l0, rhs.l1, rhs.l2, rhs.l3]));
        r.map(|w| {
            let l = w.into_limbs();
            U256 { l0: l[0], l1: l[1], l2: l[2], l3: l[3] }
        })
    }

    /// Relies on `Uint::wrapping_shl`: `self * 2^n`, reduced modulo 2^256.
    #[verifier::external_body]
    pub(crate) fn shl(self, n: usize) -> (r: U256)
        ensures
            r@ == (self@ * pow2(n as nat)) % word_modulus(),
    {
        let l = RawWord::from_limbs([self.l0, self.l1, self.l2, self.l3]).wrapping_shl(n).into_limbs();
        U256 { l0: l[0], l1: l[1], l2: l[2], l3: l[3] }
    }

    /// Relies on `Uint::wrapping_shr`: the floor of `self / 2^n`.
    #[verifier::external_body]
    pub(crate) fn shr(self, n: usize) -> (r: U256)
        ensures
            r@ == self@ / pow2(n as nat),
    {
        let l = RawWord::from_limbs([self.l0, self.l1, self.l2, self.l3]).wrapping_shr(n).into_limbs();
        U256 { l0: l[0], l1: l[1], l2: l[2], l3: l[3] }
    }

    /// Relies on the `PartialOrd` of `Uint`, which orders words by value.
    #[verifier::external_body]
    pub(crate) fn lt(&self, rhs: &U256) -> (r: bool)
        ensures
            r == (self@ < rhs@),
    {
        RawWord::from_limbs([self.l0, self.l1, self.l2, self.l3])
            < RawWord::from_limbs([rhs.l0, rhs.l1, rhs.l2, rhs.l3])
    }

    /// Relies on `Uint::to_be_bytes`: the 32 bytes of the word, most significant first.
    #[verifier::external_body]
    pub(crate) fn to_be_bytes(&self) -> (r: [u8; 32])
        ensures
            r@ == be_bytes(self@, 32),
    {
        RawWord::from_limbs([self.l0, self.l1, self.l2, self.l3]).to_be_bytes::<32>()
    }

    /// Relies on `Uint::from_be_slice`: the number that at most 32 bytes spell.
    #[verifier::external_body]
    pub(crate) fn from_be_slice(s: &[u8]) -> (r: U256)
        requires
            s@.len() <= 32,
        ensures
            r@ == be_value(s@),
    {
        let l = RawWord::from_be_slice(s).into_limbs();
        U256 { l0: l[0], l1: l[1], l2: l[2], l3: l[3] }
    }

    /// The word 2^k.
    pub fn power_of_two(k: usize) -> (r: U256)
        requires
            k < 256,
        ensures
            r@ == pow2(k as nat),
    {
        let r = U256::from_u64(1).shl(k);
        proof {
            lemma_word_modulus();
            lemma_pow2_strictly_increases(k as nat, 256);
            vstd::arithmetic::div_mod::lemma_small_mod(pow2(k as nat), word_modulus());
        }
        r
    }
}

} // verus!
