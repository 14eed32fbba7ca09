//! The operations of a multilinear extension, carried out on a table of
//! evaluations held in a `Vec`.
//!
//! Every function here computes what the function of the same meaning in
//! [`crate::hypercube`] specifies. A representation that keeps the whole
//! table can hand its work to these functions; one that does not has the
//! same contracts to meet.

use crate::algebra::{AdditiveGroup, Field, Group, RandomSource};
use crate::bits::{disjoint_fields, lemma_one_shl_is_pow2, lemma_swap_bits_bound, swap_bits};
use crate::hypercube::{
    difference_spec, evaluate_spec, fix_first_variable, fix_variables_spec, interpolate,
    is_table, is_zero_spec, lemma_fix_variables_is_table, negation_spec, relabel_spec,
    scaled_sum_spec, sum_spec,
};
use vstd::arithmetic::power2::{lemma2_to64, pow2};
use vstd::prelude::*;

verus! {

/// The number of entries of a table in `num_vars` variables, `2^num_vars`.
pub fn table_len(num_vars: usize) -> (len: usize)
    requires
        num_vars < usize::BITS,
    ensures
        len == pow2(num_vars as nat),
{
    proof {
        lemma_one_shl_is_pow2(num_vars);
    }
    1usize << num_vars
}

/// A copy of the table.
pub fn copy_table<T: Copy>(evals: &Vec<T>) -> (r: Vec<T>)
    ensures
        r@ == evals@,
{
    let len = evals.len();
    let mut r: Vec<T> = Vec::with_capacity(len);
    let mut i: usize = 0;
    while i < len
        invariant
            len == evals@.len(),
            i <= len,
            r@ == evals@.take(i as int),
        decreases len - i,
    {
        r.push(evals[i]);
        assert(r@ =~= evals@.take(i + 1));
        i += 1;
    }
    assert(evals@.take(len as int) =~= evals@);
    r
}

/// The table with the variables `a..a+k` and `b..b+k` exchanged. The entry
/// of the result at an index is the entry of `evals` at the index with the
/// two bit fields swapped.
pub fn relabel_table<T: Copy>(
    evals: &Vec<T>,
    num_vars: usize,
    a: usize,
    b: usize,
    k: usize,
) -> (r: Vec<T>)
    requires
        is_table(num_vars as nat, evals@),
        disjoint_fields(a, b, k, num_vars as nat),
    ensures
        r@ == relabel_spec(evals@, a, b, k),
{
    let len = evals.len();
    let mut r: Vec<T> = Vec::with_capacity(len);
    let mut j: usize = 0;
    while j < len
        invariant
            len == evals@.len(),
            is_table(num_vars as nat, evals@),
            disjoint_fields(a, b, k, num_vars as nat),
            j <= len,
            r@.len() == j,
            forall|i: int|
                0 <= i < j ==> r@[i] == evals@[#[trigger] swap_bits(i as usize, a, b, k) as int],
        decreases len - j,
    {
        proof {
            lemma_swap_bits_bound(j, a, b, k, num_vars);
        }
        let source = swap_bits(j, a, b, k);
        r.push(evals[source]);
        j += 1;
    }
    assert(r@ =~= relabel_spec(evals@, a, b, k));
    r
}

/// Binds the lowest variable to `v`, in place: the table shrinks to half
/// its length, and entry `i` becomes `low * (1 - v) + high * v` for the
/// entries `low` at `2i` and `high` at `2i + 1`.
pub fn fix_first_variable_in_place<G: Group>(evals: &mut Vec<G>, v: G::ScalarField)
    ensures
        final(evals)@ == fix_first_variable(old(evals)@, v),
{
    let ghost before = evals@;
    let half = evals.len() / 2;
    let complement = G::ScalarField::one().sub(v);
    let mut i: usize = 0;
    while i < half
        invariant
            evals@.len() == before.len(),
            before.len() <= usize::MAX,
            half == before.len() / 2,
            i <= half,
            complement == G::ScalarField::one_spec().sub_spec(v),
            forall|j: int|
                0 <= j < i ==> evals@[j] == interpolate(before[2 * j], before[2 * j + 1], v),
            forall|j: int| i <= j < before.len() ==> evals@[j] == before[j],
        decreases half - i,
    {
        let low = evals[2 * i];
        let high = evals[2 * i + 1];
        evals.set(i, low.scale(complement).add(high.scale(v)));
        i += 1;
    }
    evals.truncate(half);
    assert(evals@ =~= fix_first_variable(before, v));
}

/// The table with its `point.len()` lowest variables bound to the entries of
/// `point`, lowest variable first.
pub fn fix_variables_table<G: Group>(
    evals: &Vec<G>,
    num_vars: usize,
    point: &[G::ScalarField],
) -> (r: Vec<G>)
    requires
        is_table(num_vars as nat, evals@),
        point@.len() <= num_vars,
    ensures
        r@ == fix_variables_spec(evals@, point@),
        is_table((num_vars - point@.len()) as nat, r@),
{
    let mut r = copy_table(evals);
    let bound = point.len();
    let mut i: usize = 0;
    while i < bound
        invariant
            bound == point@.len(),
            i <= bound,
            r@ == fix_variables_spec(evals@, point@.take(i as int)),
        decreases bound - i,
    {
        fix_first_variable_in_place(&mut r, point[i]);
        proof {
            let next = point@.take(i + 1);
            assert(next.drop_last() =~= point@.take(i as int));
            assert(next.last() == point@[i as int]);
        }
        i += 1;
    }
    proof {
        assert(point@.take(bound as int) =~= point@);
        lemma_fix_variables_is_table(evals@, num_vars as nat, point@);
    }
    r
}

/// The value of the extension at `point`.
pub fn evaluate_table<G: Group>(
    evals: &Vec<G>,
    num_vars: usize,
    point: &[G::ScalarField],
) -> (r: G)
    requires
        is_table(num_vars as nat, evals@),
        point@.len() == num_vars,
    ensures
        r == evaluate_spec(evals@, point@),
{
    let rest = fix_variables_table(evals, num_vars, point);
    proof {
        lemma2_to64();
    }
    rest[0]
}

/// The table of the sum of two extensions in the same variables.
pub fn add_tables<G: AdditiveGroup>(left: &Vec<G>, right: &Vec<G>) -> (r: Vec<G>)
    requires
        left@.len() == right@.len(),
    ensures
        r@ == sum_spec(left@, right@),
{
    let mut r = copy_table(left);
    add_assign_table(&mut r, right);
    r
}

/// The table of the negated extension.
pub fn negate_table<G: AdditiveGroup>(evals: &Vec<G>) -> (r: Vec<G>)
    ensures
        r@ == negation_spec(evals@),
{
    let len = evals.len();
    let mut r: Vec<G> = Vec::with_capacity(len);
    let mut i: usize = 0;
    while i < len
        invariant
            len == evals@.len(),
            i <= len,
            r@.len() == i,
            forall|j: int| 0 <= j < i ==> r@[j] == evals@[j].neg_spec(),
        decreases len - i,
    {
        r.push(evals[i].neg());
        i += 1;
    }
    assert(r@ =~= negation_spec(evals@));
    r
}

/// Adds `right` to `left`, entry by entry.
pub fn add_assign_table<G: AdditiveGroup>(left: &mut Vec<G>, right: &Vec<G>)
    requires
        old(left)@.len() == right@.len(),
    ensures
        final(left)@ == sum_spec(old(left)@, right@),
{
    let ghost before = left@;
    let len = left.len();
    let mut i: usize = 0;
    while i < len
        invariant
            len == before.len(),
            left@.len() == len,
            right@.len() == len,
            i <= len,
            forall|j: int| 0 <= j < i ==> left@[j] == before[j].add_spec(right@[j]),
            forall|j: int| i <= j < len ==> left@[j] == before[j],
        decreases len - i,
    {
        let sum = left[i].add(right[i]);
        left.set(i, sum);
        i += 1;
    }
    assert(left@ =~= sum_spec(before, right@));
}

/// Adds `scalar * right` to `left`, entry by entry.
pub fn add_assign_scaled_table<G: Group>(
    left: &mut Vec<G>,
    scalar: G::ScalarField,
    right: &Vec<G>,
)
    requires
        old(left)@.len() == right@.len(),
    ensures
        final(left)@ == scaled_sum_spec(old(left)@, scalar, right@),
{
    let ghost before = left@;
    let len = left.len();
    let mut i: usize = 0;
    while i < len
        invariant
            len == before.len(),
            left@.len() == len,
            right@.len() == len,
            i <= len,
            forall|j: int|
                0 <= j < i ==> left@[j] == before[j].add_spec(right@[j].scale_spec(scalar)),
            forall|j: int| i <= j < len ==> left@[j] == before[j],
        decreases len - i,
    {
        let sum = left[i].add(right[i].scale(scalar));
        left.set(i, sum);
        i += 1;
    }
    assert(left@ =~= scaled_sum_spec(before, scalar, right@));
}

/// Subtracts `right` from `left`, entry by entry.
pub fn sub_assign_table<G: AdditiveGroup>(left: &mut Vec<G>, right: &Vec<G>)
    requires
        old(left)@.len() == right@.len(),
    ensures
        final(left)@ == difference_spec(old(left)@, right@),
{
    let ghost before = left@;
    let len = left.len();
    let mut i: usize = 0;
    while i < len
        invariant
            len == before.len(),
            left@.len() == len,
            right@.len() == len,
            i <= len,
            forall|j: int| 0 <= j < i ==> left@[j] == before[j].sub_spec(right@[j]),
            forall|j: int| i <= j < len ==> left@[j] == before[j],
        decreases len - i,
    {
        let difference = left[i].sub(right[i]);
        left.set(i, difference);
        i += 1;
    }
    assert(left@ =~= difference_spec(before, right@));
}

/// Whether two tables hold the same entries.
pub fn tables_equal<G: AdditiveGroup>(left: &Vec<G>, right: &Vec<G>) -> (r: bool)
    ensures
        r == (left@ == right@),
{
    let len = left.len();
    if right.len() != len {
        return false;
    }
    let mut i: usize = 0;
    while i < len
        invariant
            len == left@.len(),
            len == right@.len(),
            i <= len,
            forall|j: int| 0 <= j < i ==> left@[j] == right@[j],
        decreases len - i,
    {
        if !left[i].eq(&right[i]) {
            return false;
        }
        i += 1;
    }
    assert(left@ =~= right@);
    true
}

/// Whether every entry of the table is the identity.
pub fn is_zero_table<G: AdditiveGroup>(evals: &Vec<G>) -> (r: bool)
    ensures
        r == is_zero_spec(evals@),
{
    let len = evals.len();
    let zero = G::zero();
    let mut i: usize = 0;
    while i < len
        invariant
            len == evals@.len(),
            i <= len,
            zero == G::zero_spec(),
            forall|j: int| 0 <= j < i ==> evals@[j] == G::zero_spec(),
        decreases len - i,
    {
        if !evals[i].eq(&zero) {
            return false;
        }
        i += 1;
    }
    true
}

/// A table in `num_vars` variables whose entries are drawn from `rng`, in
/// the order of their indices.
pub fn random_table<T, R: RandomSource<T>>(num_vars: usize, rng: &mut R) -> (r: Vec<T>)
    requires
        num_vars < usize::BITS,
    ensures
        is_table(num_vars as nat, r@),
{
    let len = table_len(num_vars);
    let mut r: Vec<T> = Vec::with_capacity(len);
    let mut i: usize = 0;
    while i < len
        invariant
            i <= len,
            r@.len() == i,
        decreases len - i,
    {
        r.push(rng.sample());
        i += 1;
    }
    r
}

} // verus!
