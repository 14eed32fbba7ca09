//! The field with two elements.
//!
//! It is the smallest field, and the one instance of the arithmetic of
//! [`crate::algebra`] that is proved here from end to end: what the traits
//! ask of an implementation can be met.

use crate::algebra::{AdditiveGroup, Bytes, Canonical, Field};
use vstd::prelude::*;

verus! {

/// An element of the field with two elements: `Gf2(false)` is zero and
/// `Gf2(true)` is one.
#[derive(Clone, Copy, Debug, PartialEq, Eq, Hash, Structural)]
pub struct Gf2(pub bool);

impl Canonical for Gf2 {
    /// One byte: `0` for zero and `1` for one.
    open spec fn encoding(&self) -> Bytes {
        seq![if self.0 {
            1u8
        } else {
            0u8
        }]
    }

    open spec fn decoding(bytes: Bytes) -> Option<(Self, usize)> {
        if bytes.len() >= 1 && bytes[0] <= 1 {
            Some((Gf2(bytes[0] == 1), 1usize))
        } else {
            None
        }
    }

    fn encode(&self, out: &mut Vec<u8>) {
        let byte: u8 = if self.0 {
            1
        } else {
            0
        };
        out.push(byte);
        assert(out@ =~= old(out)@ + self.encoding());
    }

    fn decode(bytes: &[u8]) -> (r: Option<(Self, usize)>) {
        if bytes.len() >= 1 && bytes[0] <= 1 {
            Some((Gf2(bytes[0] == 1), 1))
        } else {
            None
        }
    }

    proof fn lemma_decoding_consumes(bytes: Bytes) {
    }

    proof fn lemma_decoding_inverts_encoding(&self, rest: Bytes) {
        assert((self.encoding() + rest)[0] == self.encoding()[0]);
    }
}

impl AdditiveGroup for Gf2 {
    open spec fn zero_spec() -> Self {
        Gf2(false)
    }

    open spec fn add_spec(self, rhs: Self) -> Self {
        Gf2(self.0 != rhs.0)
    }

    open spec fn sub_spec(self, rhs: Self) -> Self {
        Gf2(self.0 != rhs.0)
    }

    open spec fn neg_spec(self) -> Self {
        self
    }

    fn zero() -> (r: Self) {
        Gf2(false)
    }

    fn add(self, rhs: Self) -> (r: Self) {
        Gf2(self.0 != rhs.0)
    }

    fn sub(self, rhs: Self) -> (r: Self) {
        Gf2(self.0 != rhs.0)
    }

    fn neg(self) -> (r: Self) {
        self
    }

    fn eq(&self, rhs: &Self) -> (r: bool) {
        self.0 == rhs.0
    }

    proof fn lemma_add_zero(a: Self) {
    }
}

impl Field for Gf2 {
    open spec fn one_spec() -> Self {
        Gf2(true)
    }

    open spec fn mul_spec(self, rhs: Self) -> Self {
        Gf2(self.0 && rhs.0)
    }

    fn one() -> (r: Self) {
        Gf2(true)
    }

    fn mul(self, rhs: Self) -> (r: Self) {
        Gf2(self.0 && rhs.0)
    }

    proof fn lemma_mul_one_and_zero(a: Self) {
    }

    proof fn lemma_one_minus_bit() {
    }
}

} // verus!
