//! Integers of any size, as a sign and a magnitude in 64-bit words, and their
//! reduction to 64 bits.

use vstd::prelude::*;
use crate::codec::{limit64, signed_of, unsigned_of};

verus! {

/// An integer as a sign and a magnitude. The magnitude is a sequence of
/// 64-bit words, the least significant first.
#[derive(Debug)]
pub struct BigInt {
    /// True for a negative number.
    pub sign_bit: bool,
    /// The words of the magnitude, the least significant first.
    pub words: Vec<u64>,
}

/// The 64-bit two's-complement number that a sign and the lowest word of a
/// magnitude reduce to: the signed number, wrapped into 64 bits.
pub open spec fn reduced(sign_bit: bool, low: nat) -> int {
    signed_of(unsigned_of(if sign_bit { -(low as int) } else { low as int }, limit64()), limit64())
}

impl BigInt {
    /// The 64-bit value of this number: 0 for a magnitude without words,
    /// else the lowest word with the sign applied, wrapped into 64 bits.
    pub open spec fn value64(&self) -> int {
        if self.words@.len() == 0 {
            0
        } else {
            reduced(self.sign_bit, self.words@[0] as nat)
        }
    }
}

/// Reduces a number of any size to 64 bits, wrapping on overflow.
pub fn bigint_value(value: &BigInt) -> (v: i64)
    ensures
        v as int == value.value64(),
{
    if value.words.len() == 0 {
        0
    } else {
        let low: u64 = value.words[0];
        if value.sign_bit {
            proof {
                if low > 0 {
                    vstd::arithmetic::div_mod::lemma_small_mod(
                        (limit64() - low) as nat,
                        limit64() as nat,
                    );
                    vstd::arithmetic::div_mod::lemma_mod_add_multiples_vanish(
                        -(low as int),
                        limit64(),
                    );
                }
            }
            if low == 0 {
                0
            } else if low <= 0x8000_0000_0000_0000 {
                let neg: i128 = -(low as i128);
                neg as i64
            } else {
                let wrapped: u64 = (0xffff_ffff_ffff_ffff - low) + 1;
                wrapped as i64
            }
        } else {
            proof {
                vstd::arithmetic::div_mod::lemma_small_mod(low as nat, limit64() as nat);
            }
            if low >= 0x8000_0000_0000_0000 {
                let wide: i128 = low as i128 - 0x1_0000_0000_0000_0000;
                wide as i64
            } else {
                low as i64
            }
        }
    }
}

/// A number within the 64-bit signed range is its own reduction.
pub proof fn lemma_reduced_in_range(sign_bit: bool, low: nat)
    requires
        low < limit64(),
        if sign_bit { low <= 0x8000_0000_0000_0000 } else { low < 0x8000_0000_0000_0000 },
    ensures
        reduced(sign_bit, low) == if sign_bit { -(low as int) } else { low as int },
{
    crate::codec::lemma_signed_round_trip(
        if sign_bit { -(low as int) } else { low as int },
        limit64(),
    );
}

} // verus!
