//! Multilinear extensions that keep their whole table.

use crate::algebra::{Field, Group, RandomSource};
use crate::codec::{deserialize_table, serialize_table, DecodeError};
use crate::hypercube::is_table;
use crate::multilinear::{GroupMultilinearExtension, MultilinearExtension};
use crate::table::{
    add_assign_scaled_table, add_assign_table, add_tables, copy_table, evaluate_table,
    fix_variables_table, is_zero_table, negate_table, random_table, relabel_table,
    sub_assign_table, tables_equal,
};
use vstd::arithmetic::power2::lemma2_to64;
use vstd::prelude::*;

verus! {

/// A multilinear extension with values in a field, stored as the table of
/// its evaluations.
#[derive(Debug, Hash)]
pub struct DenseMultilinearExtension<F: Field> {
    /// The evaluations over the hypercube, in little-endian index order.
    pub evaluations: Vec<F>,
    /// The number of variables.
    pub num_vars: usize,
}

impl<F: Field> DenseMultilinearExtension<F> {
    /// Builds the extension in `num_vars` variables from its evaluations,
    /// where the index of an evaluation stands for its point in
    /// little-endian form. There must be `2^num_vars` of them.
    pub fn from_evaluations_vec(num_vars: usize, evaluations: Vec<F>) -> (p: Self)
        requires
            is_table(num_vars as nat, evaluations@),
        ensures
            p.num_vars == num_vars,
            p.evaluations == evaluations,
    {
        Self { evaluations, num_vars }
    }
}

impl<F: Field> Clone for DenseMultilinearExtension<F> {
    /// A copy with the same number of variables and the same evaluations.
    fn clone(&self) -> (copy: Self)
        ensures
            copy.num_vars == self.num_vars,
            copy.evaluations@ == self.evaluations@,
    {
        Self { evaluations: copy_table(&self.evaluations), num_vars: self.num_vars }
    }
}

impl<F: Field> MultilinearExtension<F> for DenseMultilinearExtension<F> {
    open spec fn arity(&self) -> nat {
        self.num_vars as nat
    }

    open spec fn table(&self) -> Seq<F> {
        self.evaluations@
    }

    open spec fn wf(&self) -> bool {
        is_table(self.num_vars as nat, self.evaluations@)
    }

    proof fn lemma_wf(&self) {
    }

    fn num_vars(&self) -> (n: usize) {
        self.num_vars
    }

    fn rand<R: RandomSource<F>>(num_vars: usize, rng: &mut R) -> (p: Self) {
        Self { evaluations: random_table(num_vars, rng), num_vars }
    }

    fn relabel(&self, a: usize, b: usize, k: usize) -> (p: Self) {
        Self {
            evaluations: relabel_table(&self.evaluations, self.num_vars, a, b, k),
            num_vars: self.num_vars,
        }
    }

    fn fix_variables(&self, partial_point: &[F]) -> (p: Self) {
        Self {
            evaluations: fix_variables_table(&self.evaluations, self.num_vars, partial_point),
            num_vars: self.num_vars - partial_point.len(),
        }
    }

    fn to_evaluations(&self) -> (evals: Vec<F>) {
        copy_table(&self.evaluations)
    }

    fn evaluate(&self, point: &Vec<F>) -> (value: F) {
        evaluate_table(&self.evaluations, self.num_vars, point.as_slice())
    }

    fn index(&self, index: usize) -> (value: &F) {
        &self.evaluations[index]
    }

    fn add(self, rhs: Self) -> (sum: Self) {
        Self {
            evaluations: add_tables(&self.evaluations, &rhs.evaluations),
            num_vars: self.num_vars,
        }
    }

    fn neg(self) -> (negated: Self) {
        Self { evaluations: negate_table(&self.evaluations), num_vars: self.num_vars }
    }

    /// The constant zero, an extension in no variables.
    fn zero() -> (p: Self)
        ensures
            p.num_vars == 0,
    {
        proof {
            lemma2_to64();
        }
        Self { evaluations: vec![F::zero()], num_vars: 0 }
    }

    fn is_zero(&self) -> (r: bool) {
        is_zero_table(&self.evaluations)
    }

    fn add_assign(&mut self, other: &Self) {
        add_assign_table(&mut self.evaluations, &other.evaluations);
    }

    fn add_assign_scaled(&mut self, scalar: F, other: &Self) {
        add_assign_scaled_table(&mut self.evaluations, scalar, &other.evaluations);
    }

    fn sub_assign(&mut self, other: &Self) {
        sub_assign_table(&mut self.evaluations, &other.evaluations);
    }

    fn eq(&self, other: &Self) -> (r: bool) {
        self.num_vars == other.num_vars && tables_equal(&self.evaluations, &other.evaluations)
    }

    fn serialize(&self) -> (out: Vec<u8>) {
        serialize_table(&self.evaluations, self.num_vars)
    }

    fn deserialize(bytes: &[u8]) -> (r: Result<Self, DecodeError>) {
        match deserialize_table::<F>(bytes) {
            Ok((num_vars, evaluations)) => Ok(Self { evaluations, num_vars }),
            Err(e) => Err(e),
        }
    }
}

/// A multilinear extension with values in a group, stored as the table of
/// its evaluations.
#[derive(Debug, Hash)]
pub struct DenseGroupMultilinearExtension<G: Group> {
    /// The evaluations over the hypercube, in little-endian index order.
    pub evaluations: Vec<G>,
    /// The number of variables.
    pub num_vars: usize,
}

impl<G: Group> DenseGroupMultilinearExtension<G> {
    /// Builds the extension in `num_vars` variables from its evaluations,
    /// where the index of an evaluation stands for its point in
    /// little-endian form. There must be `2^num_vars` of them.
    pub fn from_evaluations_vec(num_vars: usize, evaluations: Vec<G>) -> (p: Self)
        requires
            is_table(num_vars as nat, evaluations@),
        ensures
            p.num_vars == num_vars,
            p.evaluations == evaluations,
    {
        Self { evaluations, num_vars }
    }
}

impl<G: Group> Clone for DenseGroupMultilinearExtension<G> {
    /// A copy with the same number of variables and the same evaluations.
    fn clone(&self) -> (copy: Self)
        ensures
            copy.num_vars == self.num_vars,
            copy.evaluations@ == self.evaluations@,
    {
        Self { evaluations: copy_table(&self.evaluations), num_vars: self.num_vars }
    }
}

impl<G: Group> GroupMultilinearExtension<G> for DenseGroupMultilinearExtension<G> {
    open spec fn arity(&self) -> nat {
        self.num_vars as nat
    }

    open spec fn table(&self) -> Seq<G> {
        self.evaluations@
    }

    open spec fn wf(&self) -> bool {
        is_table(self.num_vars as nat, self.evaluations@)
    }

    proof fn lemma_wf(&self) {
    }

    fn num_vars(&self) -> (n: usize) {
        self.num_vars
    }

    fn rand<R: RandomSource<G>>(num_vars: usize, rng: &mut R) -> (p: Self) {
        Self { evaluations: random_table(num_vars, rng), num_vars }
    }

    fn relabel(&self, a: usize, b: usize, k: usize) -> (p: Self) {
        Self {
            evaluations: relabel_table(&self.evaluations, self.num_vars, a, b, k),
            num_vars: self.num_vars,
        }
    }

    fn fix_variables(&self, partial_point: &[G::ScalarField]) -> (p: Self) {
        Self {
            evaluations: fix_variables_table(&self.evaluations, self.num_vars, partial_point),
            num_vars: self.num_vars - partial_point.len(),
        }
    }

    fn to_evaluations(&self) -> (evals: Vec<G>) {
        copy_table(&self.evaluations)
    }

    fn evaluate(&self, point: &Vec<G::ScalarField>) -> (value: G) {
        evaluate_table(&self.evaluations, self.num_vars, point.as_slice())
    }

    fn index(&self, index: usize) -> (value: &G) {
        &self.evaluations[index]
    }

    fn add(self, rhs: Self) -> (sum: Self) {
        Self {
            evaluations: add_tables(&self.evaluations, &rhs.evaluations),
            num_vars: self.num_vars,
        }
    }

    fn neg(self) -> (negated: Self) {
        Self { evaluations: negate_table(&self.evaluations), num_vars: self.num_vars }
    }

    /// The constant zero, an extension in no variables.
    fn zero() -> (p: Self)
        ensures
            p.num_vars == 0,
    {
        proof {
            lemma2_to64();
        }
        Self { evaluations: vec![G::zero()], num_vars: 0 }
    }

    fn is_zero(&self) -> (r: bool) {
        is_zero_table(&self.evaluations)
    }

    fn add_assign(&mut self, other: &Self) {
        add_assign_table(&mut self.evaluations, &other.evaluations);
    }

    fn add_assign_scaled(&mut self, scalar: G::ScalarField, other: &Self) {
        add_assign_scaled_table(&mut self.evaluations, scalar, &other.evaluations);
    }

    fn sub_assign(&mut self, other: &Self) {
        sub_assign_table(&mut self.evaluations, &other.evaluations);
    }

    fn eq(&self, other: &Self) -> (r: bool) {
        self.num_vars == other.num_vars && tables_equal(&self.evaluations, &other.evaluations)
    }

    fn serialize(&self) -> (out: Vec<u8>) {
        serialize_table(&self.evaluations, self.num_vars)
    }

    fn deserialize(bytes: &[u8]) -> (r: Result<Self, DecodeError>) {
        match deserialize_table::<G>(bytes) {
            Ok((num_vars, evaluations)) => Ok(Self { evaluations, num_vars }),
            Err(e) => Err(e),
        }
    }
}

} // verus!
