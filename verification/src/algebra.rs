//! The arithmetic that a multilinear extension consumes.
//!
//! The values of a multilinear extension are elements of a commutative
//! group, and they are weighted by elements of the group's scalar field. A
//! field is itself such a group, with multiplication as the weighting.
//!
//! Nothing in this crate computes in a concrete field or group. Each trait
//! names what an operation returns (`add_spec`, `scale_spec`, ...) and lists
//! the few identities that the proofs of this crate rest on. Whoever
//! implements a trait for a concrete type answers for both. An
//! implementation that is verified, such as [`crate::gf2::Gf2`], proves
//! them; of one that is not, they are taken on trust, and everything proved
//! here holds for implementations that keep them.

use core::fmt::Debug;
use core::hash::Hash;
use vstd::prelude::*;

verus! {

/// A string of bytes, as specifications see it.
pub type Bytes = Seq<u8>;

/// Values with a canonical byte encoding that can be read back from the
/// front of a longer string.
pub trait Canonical: Sized {
    /// The canonical encoding of `self`.
    spec fn encoding(&self) -> Bytes;

    /// The value that `bytes` starts with and the number of bytes it takes
    /// up, or `None` where `bytes` does not start with a valid encoding.
    spec fn decoding(bytes: Bytes) -> Option<(Self, usize)>;

    /// Appends the canonical encoding of `self` to `out`.
    fn encode(&self, out: &mut Vec<u8>)
        ensures
            final(out)@ == old(out)@ + self.encoding(),
    ;

    /// Reads one value from the front of `bytes`.
    fn decode(bytes: &[u8]) -> (r: Option<(Self, usize)>)
        ensures
            r == Self::decoding(bytes@),
    ;

    /// A value that was read took up at least one byte and no more than were
    /// there.
    proof fn lemma_decoding_consumes(bytes: Bytes)
        ensures
            Self::decoding(bytes) matches Some((_, n)) ==> 0 < n <= bytes.len(),
    ;

    /// An encoding is read back as the value it came from, whatever follows
    /// it.
    proof fn lemma_decoding_inverts_encoding(&self, rest: Bytes)
        ensures
            Self::decoding(self.encoding() + rest) == Some(
                (*self, self.encoding().len() as usize),
            ),
            self.encoding().len() <= usize::MAX,
    ;
}

/// An element of a commutative group, written additively.
pub trait AdditiveGroup: Sized + Copy + Debug + Hash + Canonical {
    /// The identity of the group.
    spec fn zero_spec() -> Self;

    /// The sum `self + rhs`.
    spec fn add_spec(self, rhs: Self) -> Self;

    /// The difference `self - rhs`.
    spec fn sub_spec(self, rhs: Self) -> Self;

    /// The inverse `-self`.
    spec fn neg_spec(self) -> Self;

    fn zero() -> (r: Self)
        ensures
            r == Self::zero_spec(),
    ;

    fn add(self, rhs: Self) -> (r: Self)
        ensures
            r == self.add_spec(rhs),
    ;

    fn sub(self, rhs: Self) -> (r: Self)
        ensures
            r == self.sub_spec(rhs),
    ;

    fn neg(self) -> (r: Self)
        ensures
            r == self.neg_spec(),
    ;

    /// Whether `self` and `rhs` are the same element. Two values are equal
    /// in specifications exactly when they stand for the same element,
    /// however an implementation represents it.
    fn eq(&self, rhs: &Self) -> (r: bool)
        ensures
            r == (*self == *rhs),
    ;

    /// The identity is neutral, on either side.
    proof fn lemma_add_zero(a: Self)
        ensures
            a.add_spec(Self::zero_spec()) == a,
            Self::zero_spec().add_spec(a) == a,
    ;
}

/// An element of a field: a group under addition, with a multiplication.
pub trait Field: AdditiveGroup {
    /// The multiplicative identity.
    spec fn one_spec() -> Self;

    /// The product `self * rhs`.
    spec fn mul_spec(self, rhs: Self) -> Self;

    fn one() -> (r: Self)
        ensures
            r == Self::one_spec(),
    ;

    fn mul(self, rhs: Self) -> (r: Self)
        ensures
            r == self.mul_spec(rhs),
    ;

    /// One is neutral for multiplication, and zero absorbs.
    proof fn lemma_mul_one_and_zero(a: Self)
        ensures
            a.mul_spec(Self::one_spec()) == a,
            a.mul_spec(Self::zero_spec()) == Self::zero_spec(),
    ;

    /// `1 - 0 = 1` and `1 - 1 = 0`.
    proof fn lemma_one_minus_bit()
        ensures
            Self::one_spec().sub_spec(Self::zero_spec()) == Self::one_spec(),
            Self::one_spec().sub_spec(Self::one_spec()) == Self::zero_spec(),
    ;
}

/// An element of a group on which a field of scalars acts.
pub trait Group: AdditiveGroup {
    /// The scalars that weight elements of the group.
    type ScalarField: Field;

    /// The element `self` weighted by the scalar `s`.
    spec fn scale_spec(self, s: Self::ScalarField) -> Self;

    fn scale(self, s: Self::ScalarField) -> (r: Self)
        ensures
            r == self.scale_spec(s),
    ;

    /// Weighting by one changes nothing, and weighting by zero gives the
    /// identity.
    proof fn lemma_scale_one_and_zero(a: Self)
        ensures
            a.scale_spec(Self::ScalarField::one_spec()) == a,
            a.scale_spec(Self::ScalarField::zero_spec()) == Self::zero_spec(),
    ;
}

/// A field acts on itself by multiplication.
impl<F: Field> Group for F {
    type ScalarField = F;

    open spec fn scale_spec(self, s: F) -> Self {
        self.mul_spec(s)
    }

    fn scale(self, s: F) -> (r: Self) {
        self.mul(s)
    }

    proof fn lemma_scale_one_and_zero(a: Self) {
        F::lemma_mul_one_and_zero(a);
    }
}

/// A source of random values of type `T`.
///
/// Nothing is promised of the values it hands out: what a caller builds from
/// them holds for every sequence of samples.
pub trait RandomSource<T> {
    /// Draws the next value.
    fn sample(&mut self) -> T;
}

} // verus!
