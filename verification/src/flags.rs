//! Concrete flag types: the empty flags that occupy no bits, and the
//! three-valued flags a short Weierstrass curve point carries (point at
//! infinity, or the sign of the second coordinate).

use vstd::prelude::*;

use crate::serialize::{spec_payload_mask, Flags};

verus! {

/// Flags that carry no information and occupy no bits.
#[derive(Debug, Clone, Copy, PartialEq, Eq, Structural)]
pub struct EmptyFlags;

impl Flags for EmptyFlags {
    open spec fn spec_bit_size() -> nat {
        0
    }

    open spec fn spec_bitmask(&self) -> u8 {
        0
    }

    open spec fn spec_from_u8(b: u8) -> Option<EmptyFlags> {
        Some(EmptyFlags)
    }

    proof fn lemma_bit_size() {
    }

    proof fn lemma_bitmask_top_bits(&self) {
        assert(0u8 & 0xffu8 == 0) by (bit_vector);
    }

    proof fn lemma_bitmask_distinct(a: EmptyFlags, b: EmptyFlags) {
    }

    proof fn lemma_from_u8_reads_top_bits(b1: u8, b2: u8) {
    }

    proof fn lemma_from_u8_of_bitmask(&self) {
    }

    fn bit_size() -> usize {
        0
    }

    fn u8_bitmask(&self) -> u8 {
        0
    }

    fn from_u8(value: u8) -> Option<EmptyFlags> {
        Some(EmptyFlags)
    }
}

/// Flags describing a short Weierstrass curve point in two bits: the point
/// at infinity, or whether the second coordinate is the positive root.
#[derive(Debug, Clone, Copy, PartialEq, Eq, Structural)]
pub enum SWFlags {
    /// The point at infinity.
    Infinity,
    /// A finite point whose second coordinate is the positive root.
    PositiveY,
    /// A finite point whose second coordinate is the negative root.
    NegativeY,
}

impl Flags for SWFlags {
    open spec fn spec_bit_size() -> nat {
        2
    }

    open spec fn spec_bitmask(&self) -> u8 {
        match self {
            SWFlags::PositiveY => 0x00,
            SWFlags::NegativeY => 0x40,
            SWFlags::Infinity => 0x80,
        }
    }

    open spec fn spec_from_u8(b: u8) -> Option<SWFlags> {
        if b & 0xc0 == 0x00 {
            Some(SWFlags::PositiveY)
        } else if b & 0xc0 == 0x40 {
            Some(SWFlags::NegativeY)
        } else if b & 0xc0 == 0x80 {
            Some(SWFlags::Infinity)
        } else {
            None
        }
    }

    proof fn lemma_bit_size() {
    }

    proof fn lemma_bitmask_top_bits(&self) {
        assert(0x00u8 & 0x3fu8 == 0) by (bit_vector);
        assert(0x40u8 & 0x3fu8 == 0) by (bit_vector);
        assert(0x80u8 & 0x3fu8 == 0) by (bit_vector);
    }

    proof fn lemma_bitmask_distinct(a: SWFlags, b: SWFlags) {
    }

    proof fn lemma_from_u8_reads_top_bits(b1: u8, b2: u8) {
        assert(b1 & !0x3fu8 == b2 & !0x3fu8 ==> b1 & 0xc0u8 == b2 & 0xc0u8) by (bit_vector);
    }

    proof fn lemma_from_u8_of_bitmask(&self) {
        assert(0x00u8 & 0xc0u8 == 0x00) by (bit_vector);
        assert(0x40u8 & 0xc0u8 == 0x40) by (bit_vector);
        assert(0x80u8 & 0xc0u8 == 0x80) by (bit_vector);
    }

    fn bit_size() -> usize {
        2
    }

    fn u8_bitmask(&self) -> u8 {
        match self {
            SWFlags::PositiveY => 0x00,
            SWFlags::NegativeY => 0x40,
            SWFlags::Infinity => 0x80,
        }
    }

    fn from_u8(value: u8) -> Option<SWFlags> {
        let top = value & 0xc0;
        if top == 0x00 {
            Some(SWFlags::PositiveY)
        } else if top == 0x40 {
            Some(SWFlags::NegativeY)
        } else if top == 0x80 {
            Some(SWFlags::Infinity)
        } else {
            None
        }
    }
}

} // verus!
