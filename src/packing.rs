//! Compact word layouts for pool data, and a fixed-capacity route.
//!
//! Token data: token A in bits 0..160, token B shifted up by 160 bits and the
//! fee shifted up by 320 bits, all within one 256-bit word, so whatever is
//! shifted past bit 256 is lost. Reserves: reserve A's low 128 bits in the
//! high half of a word, reserve B's low 128 bits in the low half.
use crate::address::{address_modulus, Address};
use crate::error::Error;
use crate::uint::{lemma_view_bound, lemma_word_modulus, word_modulus, U256};
use vstd::arithmetic::div_mod::{
    lemma_add_mod_noop, lemma_div_denominator, lemma_fundamental_div_mod_converse,
    lemma_mod_multiples_basic, lemma_small_mod, lemma_truncate_middle,
};
use vstd::arithmetic::power2::{lemma2_to64, lemma_pow2_adds, lemma_pow2_pos, pow2};
use vstd::prelude::*;

verus! {

/// The token-data word of `(token_a, token_b, fee)`, truncated to 256 bits.
pub open spec fn pack_token_spec(token_a: nat, token_b: nat, fee: nat) -> nat {
    (token_a + token_b * pow2(160) + fee * pow2(320)) % word_modulus()
}

/// The fields read back from a token-data word.
pub open spec fn unpack_token_spec(packed: nat) -> (nat, nat, nat) {
    (packed % pow2(160), (packed / pow2(160)) % pow2(160), (packed / pow2(320)) % pow2(32))
}

/// The reserves word of `(reserve_a, reserve_b)`, each cut to its low 128 bits.
pub open spec fn pack_reserves_spec(reserve_a: nat, reserve_b: nat) -> nat {
    (reserve_a % pow2(128)) * pow2(128) + reserve_b % pow2(128)
}

/// The reserves read back from a reserves word.
pub open spec fn unpack_reserves_spec(packed: nat) -> (nat, nat) {
    (packed / pow2(128), packed % pow2(128))
}

/// A pool stored in two words and an address.
#[derive(Clone, Copy, Debug)]
pub struct PackedPool {
    /// Both tokens and the fee, as `pack_token_data` lays them out.
    pub token_data: U256,
    /// Both reserves, as `pack_reserves` lays them out.
    pub reserves: U256,
    pub pool_address: Address,
}

proof fn lemma_powers()
    ensures
        pow2(160) * pow2(96) == word_modulus(),
        pow2(128) * pow2(128) == word_modulus(),
        pow2(320) == pow2(64) * word_modulus(),
        pow2(32) > 0,
        pow2(96) > 0,
        pow2(128) > 0,
        pow2(160) > 0,
        pow2(160) < word_modulus(),
{
    lemma_word_modulus();
    lemma2_to64();
    lemma_pow2_adds(160, 96);
    lemma_pow2_adds(128, 128);
    lemma_pow2_adds(64, 256);
    lemma_pow2_pos(96);
    lemma_pow2_pos(128);
    lemma_pow2_pos(160);
    vstd::arithmetic::power2::lemma_pow2_strictly_increases(160, 256);
}

/// The closed form of the token-data word: token B keeps its low 96 bits and
/// the fee is shifted out entirely.
pub proof fn lemma_pack_token_closed_form(token_a: nat, token_b: nat, fee: nat)
    requires
        token_a < pow2(160),
    ensures
        pack_token_spec(token_a, token_b, fee) == token_a + pow2(160) * (token_b % pow2(96)),
        token_a + pow2(160) * (token_b % pow2(96)) < word_modulus(),
{
    lemma_powers();
    let m = word_modulus();
    let b_part = token_b * pow2(160);
    let f_part = fee * pow2(320);
    lemma_truncate_middle(token_b as int, pow2(160) as int, pow2(96) as int);
    assert(b_part % m == pow2(160) * (token_b % pow2(96))) by {
        assert(b_part == pow2(160) * token_b) by (nonlinear_arith)
            requires
                b_part == token_b * pow2(160),
        ;
    }
    assert(f_part == (fee * pow2(64)) * m) by (nonlinear_arith)
        requires
            pow2(320) == pow2(64) * m,
            f_part == fee * pow2(320),
    ;
    lemma_mod_multiples_basic((fee * pow2(64)) as int, m as int);
    let low = token_a + pow2(160) * (token_b % pow2(96));
    let h = token_b % pow2(96);
    assert(pow2(160) * h + pow2(160) <= pow2(160) * pow2(96)) by (nonlinear_arith)
        requires
            h < pow2(96),
    ;
    lemma_add_mod_noop((token_a + b_part) as int, f_part as int, m as int);
    lemma_add_mod_noop(token_a as int, b_part as int, m as int);
    lemma_small_mod(token_a, m);
    lemma_small_mod(low, m);
    assert((token_a + b_part) % m == low);
}

/// Reading back a token-data word returns token A whole, token B modulo 2^96
/// and a zero fee: the word has no room for more.
pub proof fn lemma_token_packing_truncates(token_a: nat, token_b: nat, fee: nat)
    requires
        token_a < pow2(160),
    ensures
        unpack_token_spec(pack_token_spec(token_a, token_b, fee)) == (
            token_a,
            token_b % pow2(96),
            0nat,
        ),
{
    lemma_pack_token_closed_form(token_a, token_b, fee);
    lemma_powers();
    let w = pack_token_spec(token_a, token_b, fee);
    let hi = token_b % pow2(96);
    assert(w == hi * pow2(160) + token_a) by (nonlinear_arith)
        requires
            w == token_a + pow2(160) * hi,
    ;
    lemma_fundamental_div_mod_converse(w as int, pow2(160) as int, hi as int, token_a as int);
    vstd::arithmetic::power2::lemma_pow2_strictly_increases(96, 160);
    lemma_small_mod(hi, pow2(160));
    vstd::arithmetic::power2::lemma_pow2_strictly_increases(256, 320);
    lemma_word_modulus();
    vstd::arithmetic::div_mod::lemma_basic_div(w as int, pow2(320) as int);
    lemma2_to64();
}

/// Token data survives a round trip when token B fits 96 bits and the fee is 0.
pub proof fn lemma_token_round_trip(token_a: nat, token_b: nat, fee: nat)
    requires
        token_a < pow2(160),
        token_b < pow2(96),
        fee == 0,
    ensures
        unpack_token_spec(pack_token_spec(token_a, token_b, fee)) == (token_a, token_b, fee),
{
    lemma_token_packing_truncates(token_a, token_b, fee);
    lemma_small_mod(token_b, pow2(96));
}

/// Reading back a reserves word returns each reserve modulo 2^128: whatever a
/// reserve held above bit 128 is lost.
pub proof fn lemma_reserve_packing_truncates(reserve_a: nat, reserve_b: nat)
    ensures
        unpack_reserves_spec(pack_reserves_spec(reserve_a, reserve_b)) == (
            reserve_a % pow2(128),
            reserve_b % pow2(128),
        ),
        pack_reserves_spec(reserve_a, reserve_b) < word_modulus(),
{
    lemma_powers();
    let a = reserve_a % pow2(128);
    let b = reserve_b % pow2(128);
    let w = pack_reserves_spec(reserve_a, reserve_b);
    assert(w == pow2(128) * a + b) by (nonlinear_arith)
        requires
            w == a * pow2(128) + b,
    ;
    lemma_fundamental_div_mod_converse(w as int, pow2(128) as int, a as int, b as int);
    assert(w < word_modulus()) by (nonlinear_arith)
        requires
            a < pow2(128),
            b < pow2(128),
            w == a * pow2(128) + b,
            pow2(128) * pow2(128) == word_modulus(),
    ;
}

/// Reserves below 2^128 survive a round trip.
pub proof fn lemma_reserve_round_trip(reserve_a: nat, reserve_b: nat)
    requires
        reserve_a < pow2(128),
        reserve_b < pow2(128),
    ensures
        unpack_reserves_spec(pack_reserves_spec(reserve_a, reserve_b)) == (reserve_a, reserve_b),
{
    lemma_reserve_packing_truncates(reserve_a, reserve_b);
    lemma_small_mod(reserve_a, pow2(128));
    lemma_small_mod(reserve_b, pow2(128));
}

impl PackedPool {
    /// Packs two addresses and a fee into one word (see the module layout).
    pub fn pack_token_data(token_a: Address, token_b: Address, fee: u32) -> (r: U256)
        ensures
            r@ == pack_token_spec(token_a@, token_b@, fee as nat),
    {
        let a = token_a.word();
        let b = token_b.word();
        let b_part = b.shl(160);
        let fee_part = U256::from_u64(fee as u64).shl(320);
        proof {
            lemma_pack_token_closed_form(a@, b@, fee as nat);
            lemma_powers();
            lemma_truncate_middle(b@ as int, pow2(160) as int, pow2(96) as int);
            assert(b@ * pow2(160) == pow2(160) * b@) by (nonlinear_arith);
            assert(fee as nat * pow2(320) == (fee as nat * pow2(64)) * word_modulus())
                by (nonlinear_arith)
                requires
                    pow2(320) == pow2(64) * word_modulus(),
            ;
            lemma_mod_multiples_basic((fee as nat * pow2(64)) as int, word_modulus() as int);
        }
        // The parts occupy disjoint bits, so their sum is their bitwise or.
        let low = match a.checked_add(b_part) {
            Some(x) => x,
            None => a,
        };
        match low.checked_add(fee_part) {
            Some(x) => x,
            None => low,
        }
    }

    /// Reads two addresses and a fee back from a token-data word.
    pub fn unpack_token_data(packed: U256) -> (r: (Address, Address, u32))
        ensures
            (r.0@, r.1@, r.2 as nat) == unpack_token_spec(packed@),
    {
        proof {
            lemma_powers();
        }
        let address_span = U256::power_of_two(160);
        let a = match packed.checked_rem(address_span) {
            Some(x) => x,
            None => U256::zero(),
        };
        let b = match packed.shr(160).checked_rem(address_span) {
            Some(x) => x,
            None => U256::zero(),
        };
        let fee_word = match packed.shr(320).checked_rem(U256::power_of_two(32)) {
            Some(x) => x,
            None => U256::zero(),
        };
        proof {
            lemma2_to64();
        }
        (Address::from_word(a), Address::from_word(b), fee_word.low_u64() as u32)
    }

    /// Packs the low 128 bits of each reserve into one word.
    pub fn pack_reserves(reserve_a: U256, reserve_b: U256) -> (r: U256)
        ensures
            r@ == pack_reserves_spec(reserve_a@, reserve_b@),
    {
        proof {
            lemma_powers();
            lemma_reserve_packing_truncates(reserve_a@, reserve_b@);
        }
        let half = U256::power_of_two(128);
        let a = match reserve_a.checked_rem(half) {
            Some(x) => x,
            None => U256::zero(),
        };
        let b = match reserve_b.checked_rem(half) {
            Some(x) => x,
            None => U256::zero(),
        };
        let high = a.shl(128);
        proof {
            assert(a@ * pow2(128) < word_modulus()) by (nonlinear_arith)
                requires
                    a@ < pow2(128),
                    pow2(128) * pow2(128) == word_modulus(),
            ;
            lemma_small_mod(a@ * pow2(128), word_modulus());
        }
        match high.checked_add(b) {
            Some(x) => x,
            None => high,
        }
    }

    /// Reads both reserves back from a reserves word.
    pub fn unpack_reserves(packed: U256) -> (r: (U256, U256))
        ensures
            (r.0@, r.1@) == unpack_reserves_spec(packed@),
    {
        proof {
            lemma_powers();
        }
        let low = match packed.checked_rem(U256::power_of_two(128)) {
            Some(x) => x,
            None => U256::zero(),
        };
        (packed.shr(128), low)
    }
}

/// One hop of a route.
#[derive(Clone, Copy, Debug, PartialEq, Eq, Structural)]
pub struct RouteStep {
    pub pool_id: U256,
    pub token_in: Address,
    pub token_out: Address,
    pub amount_in: U256,
    pub amount_out: U256,
}

/// A route of at most `MAX_HOPS` steps held in a fixed array.
pub struct StackRoute<const MAX_HOPS: usize> {
    /// The steps; the first `length` slots are filled.
    pub steps: [Option<RouteStep>; MAX_HOPS],
    pub length: usize,
}

impl<const MAX_HOPS: usize> StackRoute<MAX_HOPS> {
    /// The first `length` slots are filled and no slot lies beyond capacity.
    pub open spec fn wf(&self) -> bool {
        &&& self.length <= MAX_HOPS
        &&& forall|i: int| 0 <= i < self.length ==> (#[trigger] self.steps@[i]) is Some
    }

    /// The steps of the route, in order.
    pub open spec fn route(&self) -> Seq<RouteStep> {
        Seq::new(self.length as nat, |i: int| self.steps@[i]->Some_0)
    }

    /// An empty route.
    pub fn new() -> (r: Self)
        ensures
            r.wf(),
            r.route() == Seq::<RouteStep>::empty(),
    {
        let r = StackRoute { steps: [None; MAX_HOPS], length: 0 };
        assert(r.route() =~= Seq::<RouteStep>::empty());
        r
    }

    /// Appends a step, or fails with `RouteTooLong` when the route is full.
    pub fn add_step(&mut self, step: RouteStep) -> (r: Result<(), Error>)
        requires
            old(self).wf(),
        ensures
            final(self).wf(),
            old(self).length >= MAX_HOPS ==> r == Err::<(), Error>(Error::RouteTooLong)
                && final(self).route() == old(self).route(),
            old(self).length < MAX_HOPS ==> r is Ok && final(self).route() == old(
                self,
            ).route().push(step),
    {
        if self.length >= MAX_HOPS {
            return Err(Error::RouteTooLong);
        }
        let ghost before = self.route();
        self.steps[self.length] = Some(step);
        self.length = self.length + 1;
        assert(self.route() =~= before.push(step));
        Ok(())
    }

    /// The steps of the route, in order.
    pub fn get_steps(&self) -> (r: Vec<RouteStep>)
        requires
            self.wf(),
        ensures
            r@ == self.route(),
    {
        let mut v: Vec<RouteStep> = Vec::new();
        let mut i: usize = 0;
        while i < self.length
            invariant
                self.wf(),
                i <= self.length,
                v@ == self.route().subrange(0, i as int),
            decreases self.length - i,
        {
            match self.steps[i] {
                Some(step) => v.push(step),
                None => {},
            }
            i = i + 1;
            assert(v@ =~= self.route().subrange(0, i as int));
        }
        assert(v@ =~= self.route());
        v
    }
}

} // verus!
