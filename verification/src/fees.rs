//! Gas fees: the priority fee the miner adds to win the race for a solved
//! challenge, on the fee quote the node gives.
use vstd::prelude::*;

verus! {

/// 2^128.
pub open spec fn two_pow_128() -> nat {
    u128::MAX as nat + 1
}

/// 2^256.
pub open spec fn two_pow_256() -> nat {
    two_pow_128() * two_pow_128()
}

/// An unsigned 256-bit number in two 128-bit halves.
#[derive(Clone, Copy, Debug, PartialEq, Eq)]
pub struct Uint256 {
    pub hi: u128,
    pub lo: u128,
}

/// Adding two numbers in halves: the low halves with their carry, then the high
/// halves with the carry; the sum fits in two halves exactly when the high sum does.
proof fn lemma_add_by_halves(ah: nat, al: nat, bh: nat, bl: nat, t: nat, c: nat, l: nat)
    requires
        t > 0,
        al < t,
        bl < t,
        al + bl == c * t + l,
        c == 0 || c == 1,
        l < t,
    ensures
        (ah * t + al) + (bh * t + bl) == (ah + bh + c) * t + l,
        ((ah * t + al) + (bh * t + bl) < t * t) == (ah + bh + c < t),
{
    assert((ah * t + al) + (bh * t + bl) == (ah + bh + c) * t + l) by (nonlinear_arith)
        requires
            al + bl == c * t + l,
    ;
    let k = ah + bh + c;
    if k < t {
        assert(k * t + l < t * t) by (nonlinear_arith)
            requires
                k < t,
                l < t,
        ;
    } else {
        assert(k * t + l >= t * t) by (nonlinear_arith)
            requires
                k >= t,
                t > 0,
        ;
    }
}

impl Uint256 {
    /// The number: `hi * 2^128 + lo`.
    pub open spec fn value(self) -> nat {
        self.hi as nat * two_pow_128() + self.lo as nat
    }

    /// The number `x`.
    pub fn from_u128(x: u128) -> (r: Uint256)
        ensures
            r.value() == x,
    {
        Uint256 { hi: 0, lo: x }
    }

    /// The sum, or `None` where it does not fit in 256 bits.
    pub fn checked_add(&self, other: &Uint256) -> (r: Option<Uint256>)
        ensures
            r is Some <==> self.value() + other.value() < two_pow_256(),
            r matches Some(s) ==> s.value() == self.value() + other.value(),
    {
        let (lo, carry) = match self.lo.checked_add(other.lo) {
            Some(l) => (l, 0u128),
            None => (self.lo.wrapping_add(other.lo), 1u128),
        };
        let hi = match self.hi.checked_add(other.hi) {
            Some(h) => h.checked_add(carry),
            None => None,
        };
        proof {
            lemma_add_by_halves(
                self.hi as nat,
                self.lo as nat,
                other.hi as nat,
                other.lo as nat,
                two_pow_128(),
                carry as nat,
                lo as nat,
            );
        }
        match hi {
            Some(h) => Some(Uint256 { hi: h, lo }),
            None => None,
        }
    }
}

/// A 256-bit number is worth `hi * 2^128 + lo`, and sums of two such
/// numbers fit exactly when they are below 2^256.
pub proof fn lemma_uint256_value(x: Uint256)
    ensures
        x.value() == x.hi as nat * 0x1_0000_0000_0000_0000_0000_0000_0000_0000nat + x.lo as nat,
        two_pow_256() == 0x1_0000_0000_0000_0000_0000_0000_0000_0000_0000_0000_0000_0000_0000_0000_0000_0000nat,
        x.value() < two_pow_256(),
{
    assert((x.hi as nat) * two_pow_128() + (x.lo as nat) < two_pow_128() * two_pow_128()) by (nonlinear_arith)
        requires
            x.hi < two_pow_128(),
            x.lo < two_pow_128(),
    ;
}

/// Wei per gwei.
pub const WEI_PER_GWEI: u128 = 1_000_000_000;

/// A fee in gwei, in wei.
pub fn gwei_to_wei(gwei: u64) -> (r: Uint256)
    ensures
        r.value() == gwei as nat * 1_000_000_000,
{
    Uint256::from_u128(gwei as u128 * WEI_PER_GWEI)
}

/// What the node quoted for the fees of a transaction.
#[derive(Clone, Copy, Debug, PartialEq, Eq)]
pub enum FeeQuote {
    /// An EIP-1559 estimate; only its maximum fee per gas is used.
    Eip1559 { max_fee_per_gas: Uint256 },
    /// No EIP-1559 estimate, but a legacy gas price.
    Legacy { gas_price: Uint256 },
    /// Neither could be had.
    Unavailable,
}

/// The fees to set on the transaction that submits a nonce.
#[derive(Clone, Copy, Debug, PartialEq, Eq)]
pub enum FeePlan {
    /// An EIP-1559 transaction with these fees.
    Eip1559 { max_fee_per_gas: Uint256, max_priority_fee_per_gas: Uint256 },
    /// A legacy gas price.
    Legacy { gas_price: Uint256 },
    /// Leave the fees of the transaction as they are.
    Unchanged,
}

/// The fees that boost a submission by `priority` wei per gas: on an EIP-1559
/// estimate, `priority` as the priority fee and the estimated maximum fee plus
/// `priority` as the maximum fee; on a legacy quote, the gas price plus
/// `priority`; without a quote, no change.  `None` where a sum exceeds 256 bits.
pub fn plan_fees(quote: &FeeQuote, priority: &Uint256) -> (r: Option<FeePlan>)
    ensures
        match *quote {
            FeeQuote::Eip1559 { max_fee_per_gas } => {
                &&& r is Some <==> max_fee_per_gas.value() + priority.value() < two_pow_256()
                &&& r matches Some(p) ==> p matches FeePlan::Eip1559 {
                    max_fee_per_gas: m,
                    max_priority_fee_per_gas: q,
                } && m.value() == max_fee_per_gas.value() + priority.value() && q == *priority
            },
            FeeQuote::Legacy { gas_price } => {
                &&& r is Some <==> gas_price.value() + priority.value() < two_pow_256()
                &&& r matches Some(p) ==> p matches FeePlan::Legacy { gas_price: g } && g.value()
                    == gas_price.value() + priority.value()
            },
            FeeQuote::Unavailable => r == Some(FeePlan::Unchanged),
        },
{
    match quote {
        FeeQuote::Eip1559 { max_fee_per_gas } => match max_fee_per_gas.checked_add(priority) {
            Some(m) => Some(FeePlan::Eip1559 { max_fee_per_gas: m, max_priority_fee_per_gas: *priority }),
            None => None,
        },
        FeeQuote::Legacy { gas_price } => match gas_price.checked_add(priority) {
            Some(g) => Some(FeePlan::Legacy { gas_price: g }),
            None => None,
        },
        FeeQuote::Unavailable => Some(FeePlan::Unchanged),
    }
}

} // verus!
