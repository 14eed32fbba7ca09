//! The contract of a multilinear extension.
//!
//! A multilinear extension of an array is the polynomial, of degree at most
//! one in each variable, that takes the values of the array on the Boolean
//! hypercube `{0,1}^n`. The two traits of this module say what any
//! representation of one has to do: [`MultilinearExtension`] for values in a
//! field, [`GroupMultilinearExtension`] for values in a group on which a
//! field acts.
//!
//! An index stands for a point of the hypercube in little-endian form:
//! `0b1011` stands for `P(1, 1, 0, 1)`. What a representation stands for is
//! its number of variables and its table of evaluations; every contract is
//! stated on these two, never on how they are stored.

use crate::algebra::{Field, Group, RandomSource};
use crate::bits::disjoint_fields;
use crate::codec::{deserialize_spec, serialize_spec, DecodeError};
use crate::hypercube::{
    difference_spec, evaluate_spec, fix_variables_spec, is_table, is_zero_spec, negation_spec,
    relabel_spec, scaled_sum_spec, sum_spec,
};
use core::fmt::Debug;
use core::hash::Hash;
use vstd::arithmetic::power2::pow2;
use vstd::prelude::*;

verus! {

/// A multilinear extension with values in the field `F`.
pub trait MultilinearExtension<F: Field>: Sized + Clone + Debug + Hash {
    /// The number of variables.
    spec fn arity(&self) -> nat;

    /// The evaluations over the hypercube, in little-endian index order.
    spec fn table(&self) -> Seq<F>;

    /// What the representation keeps true of itself.
    spec fn wf(&self) -> bool;

    /// A well-formed extension in `n` variables has `2^n` evaluations.
    proof fn lemma_wf(&self)
        requires
            self.wf(),
        ensures
            is_table(self.arity(), self.table()),
    ;

    /// Returns the number of variables in `self`.
    fn num_vars(&self) -> (n: usize)
        requires
            self.wf(),
        ensures
            n == self.arity(),
    ;

    /// Outputs an extension in `num_vars` variables whose evaluations are
    /// drawn from `rng`.
    fn rand<R: RandomSource<F>>(num_vars: usize, rng: &mut R) -> (p: Self)
        requires
            num_vars < usize::BITS,
        ensures
            p.wf(),
            p.arity() == num_vars,
    ;

    /// Relabels the point by swapping the `k` variables at positions
    /// `a..a+k` with those at positions `b..b+k`.
    ///
    /// This turns `P(x_1,...,x_a,...,x_{a+k-1},...,x_b,...,x_{b+k-1},...,x_n)`
    /// into `P(x_1,...,x_b,...,x_{b+k-1},...,x_a,...,x_{a+k-1},...,x_n)`. The
    /// two ranges must lie within the variables and must not overlap.
    fn relabel(&self, a: usize, b: usize, k: usize) -> (p: Self)
        requires
            self.wf(),
            disjoint_fields(a, b, k, self.arity()),
        ensures
            p.wf(),
            p.arity() == self.arity(),
            p.table() == relabel_spec(self.table(), a, b, k),
    ;

    /// Reduces the number of variables of `self` by fixing the
    /// `partial_point.len()` lowest variables at `partial_point`: variable
    /// `x_i` is bound to `partial_point[i]`, and the variables that remain
    /// move down to the positions from zero on.
    fn fix_variables(&self, partial_point: &[F]) -> (p: Self)
        requires
            self.wf(),
            partial_point@.len() <= self.arity(),
        ensures
            p.wf(),
            p.arity() == self.arity() - partial_point@.len(),
            p.table() == fix_variables_spec::<F>(self.table(), partial_point@),
    ;

    /// Returns the evaluations over the hypercube, in little-endian order.
    fn to_evaluations(&self) -> (evals: Vec<F>)
        requires
            self.wf(),
        ensures
            evals@ == self.table(),
            evals@.len() == pow2(self.arity()),
    ;

    /// The value of the polynomial at `point`, which may lie off the
    /// hypercube.
    fn evaluate(&self, point: &Vec<F>) -> (value: F)
        requires
            self.wf(),
            point@.len() == self.arity(),
        ensures
            value == evaluate_spec::<F>(self.table(), point@),
    ;

    /// The evaluation at the point of the hypercube with the given index.
    fn index(&self, index: usize) -> (value: &F)
        requires
            self.wf(),
            index < pow2(self.arity()),
        ensures
            *value == self.table()[index as int],
    ;

    /// The sum of two extensions in the same variables.
    fn add(self, rhs: Self) -> (sum: Self)
        requires
            self.wf(),
            rhs.wf(),
            self.arity() == rhs.arity(),
        ensures
            sum.wf(),
            sum.arity() == self.arity(),
            sum.table() == sum_spec(self.table(), rhs.table()),
    ;

    /// The negated extension.
    fn neg(self) -> (negated: Self)
        requires
            self.wf(),
        ensures
            negated.wf(),
            negated.arity() == self.arity(),
            negated.table() == negation_spec(self.table()),
    ;

    /// An extension that is zero everywhere.
    fn zero() -> (p: Self)
        ensures
            p.wf(),
            is_zero_spec(p.table()),
    ;

    /// Whether the extension is zero everywhere.
    fn is_zero(&self) -> (r: bool)
        requires
            self.wf(),
        ensures
            r == is_zero_spec(self.table()),
    ;

    /// `self += other`, for extensions in the same variables.
    fn add_assign(&mut self, other: &Self)
        requires
            old(self).wf(),
            other.wf(),
            old(self).arity() == other.arity(),
        ensures
            final(self).wf(),
            final(self).arity() == old(self).arity(),
            final(self).table() == sum_spec(old(self).table(), other.table()),
    ;

    /// `self += scalar * other`, for extensions in the same variables.
    fn add_assign_scaled(&mut self, scalar: F, other: &Self)
        requires
            old(self).wf(),
            other.wf(),
            old(self).arity() == other.arity(),
        ensures
            final(self).wf(),
            final(self).arity() == old(self).arity(),
            final(self).table() == scaled_sum_spec::<F>(old(self).table(), scalar, other.table()),
    ;

    /// `self -= other`, for extensions in the same variables.
    fn sub_assign(&mut self, other: &Self)
        requires
            old(self).wf(),
            other.wf(),
            old(self).arity() == other.arity(),
        ensures
            final(self).wf(),
            final(self).arity() == old(self).arity(),
            final(self).table() == difference_spec(old(self).table(), other.table()),
    ;

    /// Whether two extensions have the same number of variables and the same
    /// evaluations.
    fn eq(&self, other: &Self) -> (r: bool)
        requires
            self.wf(),
            other.wf(),
        ensures
            r == (self.arity() == other.arity() && self.table() == other.table()),
    ;

    /// The canonical bytes of `self`.
    fn serialize(&self) -> (out: Vec<u8>)
        requires
            self.wf(),
        ensures
            out@ == serialize_spec(self.arity(), self.table()),
    ;

    /// Reads an extension from its canonical bytes. Bytes that are the
    /// canonical form of no extension are reported, with the reason.
    fn deserialize(bytes: &[u8]) -> (r: Result<Self, DecodeError>)
        ensures
            match r {
                Ok(p) => p.wf() && deserialize_spec::<F>(bytes@) == Ok::<
                    (nat, Seq<F>),
                    DecodeError,
                >((p.arity(), p.table())),
                Err(e) => deserialize_spec::<F>(bytes@) == Err::<(nat, Seq<F>), DecodeError>(e),
            },
    ;
}

/// A multilinear extension with values in the group `G`, weighted by the
/// scalars of `G`.
pub trait GroupMultilinearExtension<G: Group>: Sized + Clone + Debug + Hash {
    /// The number of variables.
    spec fn arity(&self) -> nat;

    /// The evaluations over the hypercube, in little-endian index order.
    spec fn table(&self) -> Seq<G>;

    /// What the representation keeps true of itself.
    spec fn wf(&self) -> bool;

    /// A well-formed extension in `n` variables has `2^n` evaluations.
    proof fn lemma_wf(&self)
        requires
            self.wf(),
        ensures
            is_table(self.arity(), self.table()),
    ;

    /// Returns the number of variables in `self`.
    fn num_vars(&self) -> (n: usize)
        requires
            self.wf(),
        ensures
            n == self.arity(),
    ;

    /// Outputs an extension in `num_vars` variables whose evaluations are
    /// drawn from `rng`.
    fn rand<R: RandomSource<G>>(num_vars: usize, rng: &mut R) -> (p: Self)
        requires
            num_vars < usize::BITS,
        ensures
            p.wf(),
            p.arity() == num_vars,
    ;

    /// Relabels the point by swapping the `k` variables at positions
    /// `a..a+k` with those at positions `b..b+k`.
    ///
    /// This turns `P(x_1,...,x_a,...,x_{a+k-1},...,x_b,...,x_{b+k-1},...,x_n)`
    /// into `P(x_1,...,x_b,...,x_{b+k-1},...,x_a,...,x_{a+k-1},...,x_n)`. The
    /// two ranges must lie within the variables and must not overlap.
    fn relabel(&self, a: usize, b: usize, k: usize) -> (p: Self)
        requires
            self.wf(),
            disjoint_fields(a, b, k, self.arity()),
        ensures
            p.wf(),
            p.arity() == self.arity(),
            p.table() == relabel_spec(self.table(), a, b, k),
    ;

    /// Reduces the number of variables of `self` by fixing the
    /// `partial_point.len()` lowest variables at `partial_point`: variable
    /// `x_i` is bound to `partial_point[i]`, and the variables that remain
    /// move down to the positions from zero on.
    fn fix_variables(&self, partial_point: &[G::ScalarField]) -> (p: Self)
        requires
            self.wf(),
            partial_point@.len() <= self.arity(),
        ensures
            p.wf(),
            p.arity() == self.arity() - partial_point@.len(),
            p.table() == fix_variables_spec(self.table(), partial_point@),
    ;

    /// Returns the evaluations over the hypercube, in little-endian order.
    fn to_evaluations(&self) -> (evals: Vec<G>)
        requires
            self.wf(),
        ensures
            evals@ == self.table(),
            evals@.len() == pow2(self.arity()),
    ;

    /// The value of the polynomial at `point`, which may lie off the
    /// hypercube.
    fn evaluate(&self, point: &Vec<G::ScalarField>) -> (value: G)
        requires
            self.wf(),
            point@.len() == self.arity(),
        ensures
            value == evaluate_spec(self.table(), point@),
    ;

    /// The evaluation at the point of the hypercube with the given index.
    fn index(&self, index: usize) -> (value: &G)
        requires
            self.wf(),
            index < pow2(self.arity()),
        ensures
            *value == self.table()[index as int],
    ;

    /// The sum of two extensions in the same variables.
    fn add(self, rhs: Self) -> (sum: Self)
        requires
            self.wf(),
            rhs.wf(),
            self.arity() == rhs.arity(),
        ensures
            sum.wf(),
            sum.arity() == self.arity(),
            sum.table() == sum_spec(self.table(), rhs.table()),
    ;

    /// The negated extension.
    fn neg(self) -> (negated: Self)
        requires
            self.wf(),
        ensures
            negated.wf(),
            negated.arity() == self.arity(),
            negated.table() == negation_spec(self.table()),
    ;

    /// An extension that is the identity everywhere.
    fn zero() -> (p: Self)
        ensures
            p.wf(),
            is_zero_spec(p.table()),
    ;

    /// Whether the extension is the identity everywhere.
    fn is_zero(&self) -> (r: bool)
        requires
            self.wf(),
        ensures
            r == is_zero_spec(self.table()),
    ;

    /// `self += other`, for extensions in the same variables.
    fn add_assign(&mut self, other: &Self)
        requires
            old(self).wf(),
            other.wf(),
            old(self).arity() == other.arity(),
        ensures
            final(self).wf(),
            final(self).arity() == old(self).arity(),
            final(self).table() == sum_spec(old(self).table(), other.table()),
    ;

    /// `self += scalar * other`, for extensions in the same variables.
    fn add_assign_scaled(&mut self, scalar: G::ScalarField, other: &Self)
        requires
            old(self).wf(),
            other.wf(),
            old(self).arity() == other.arity(),
        ensures
            final(self).wf(),
            final(self).arity() == old(self).arity(),
            final(self).table() == scaled_sum_spec(old(self).table(), scalar, other.table()),
    ;

    /// `self -= other`, for extensions in the same variables.
    fn sub_assign(&mut self, other: &Self)
        requires
            old(self).wf(),
            other.wf(),
            old(self).arity() == other.arity(),
        ensures
            final(self).wf(),
            final(self).arity() == old(self).arity(),
            final(self).table() == difference_spec(old(self).table(), other.table()),
    ;

    /// Whether two extensions have the same number of variables and the same
    /// evaluations.
    fn eq(&self, other: &Self) -> (r: bool)
        requires
            self.wf(),
            other.wf(),
        ensures
            r == (self.arity() == other.arity() && self.table() == other.table()),
    ;

    /// The canonical bytes of `self`.
    fn serialize(&self) -> (out: Vec<u8>)
        requires
            self.wf(),
        ensures
            out@ == serialize_spec(self.arity(), self.table()),
    ;

    /// Reads an extension from its canonical bytes. Bytes that are the
    /// canonical form of no extension are reported, with the reason.
    fn deserialize(bytes: &[u8]) -> (r: Result<Self, DecodeError>)
        ensures
            match r {
                Ok(p) => p.wf() && deserialize_spec::<G>(bytes@) == Ok::<
                    (nat, Seq<G>),
                    DecodeError,
                >((p.arity(), p.table())),
                Err(e) => deserialize_spec::<G>(bytes@) == Err::<(nat, Seq<G>), DecodeError>(e),
            },
    ;
}

} // verus!
