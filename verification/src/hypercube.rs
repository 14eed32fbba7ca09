//! What a multilinear extension is, and what its operations mean.
//!
//! A multilinear extension in `n` variables is given by its `2^n`
//! evaluations on the Boolean hypercube. The evaluation at the point
//! `(x_0, ..., x_{n-1})` stands at the index whose bit `i` is `x_i`, so the
//! table is in little-endian order: index `0b1011` holds `P(1, 1, 0, 1)`.
//!
//! The functions of this module are specifications on such tables. The
//! traits and the executable code of the crate are stated in their terms.

use crate::algebra::{AdditiveGroup, Field, Group};
use crate::bits::{
    bit, disjoint_fields, lemma_bit_is_parity_of_quotient, lemma_swap_bits_bit,
    lemma_swap_bits_bound, lemma_swap_bits_involution, source_bit, swap_bits_spec,
};
use vstd::arithmetic::div_mod::{lemma_mod_breakdown, lemma_small_mod};
use vstd::arithmetic::power2::{lemma2_to64, lemma_pow2_pos, lemma_pow2_unfold, pow2};
use vstd::bits::lemma_usize_pow2_no_overflow;
use vstd::prelude::*;

verus! {

/// `evals` can be the table of an extension in `num_vars` variables: it has
/// `2^num_vars` entries, and its indices fit a machine word.
pub open spec fn is_table<T>(num_vars: nat, evals: Seq<T>) -> bool {
    &&& num_vars < usize::BITS
    &&& evals.len() == pow2(num_vars)
}

/// The table of `P` with the variables `a..a+k` and `b..b+k` exchanged:
/// the entry at an index is the entry of `evals` at the index with the two
/// bit fields swapped.
pub open spec fn relabel_spec<T>(evals: Seq<T>, a: usize, b: usize, k: usize) -> Seq<T> {
    Seq::new(evals.len(), |j: int| evals[swap_bits_spec(j as usize, a, b, k) as int])
}

/// The value at `v` of the line through `low` at zero and `high` at one:
/// `low * (1 - v) + high * v`.
pub open spec fn interpolate<G: Group>(low: G, high: G, v: G::ScalarField) -> G {
    low.scale_spec(G::ScalarField::one_spec().sub_spec(v)).add_spec(high.scale_spec(v))
}

/// The table of `P(v, x_1, ..., x_{n-1})` as an extension in the remaining
/// variables: the lowest variable is bound to `v`, and every other variable
/// moves down one position.
pub open spec fn fix_first_variable<G: Group>(evals: Seq<G>, v: G::ScalarField) -> Seq<G> {
    Seq::new(
        (evals.len() / 2) as nat,
        |i: int| interpolate(evals[2 * i], evals[2 * i + 1], v),
    )
}

/// The table of `P(point[0], ..., point[m-1], x_m, ..., x_{n-1})`: the `m`
/// lowest variables are bound, one after the other and lowest first, to the
/// entries of `point`.
pub open spec fn fix_variables_spec<G: Group>(
    evals: Seq<G>,
    point: Seq<G::ScalarField>,
) -> Seq<G>
    decreases point.len(),
{
    if point.len() == 0 {
        evals
    } else {
        fix_first_variable(fix_variables_spec(evals, point.drop_last()), point.last())
    }
}

/// The value of the extension at `point`, which need not lie on the
/// hypercube: what remains once every variable is bound.
pub open spec fn evaluate_spec<G: Group>(evals: Seq<G>, point: Seq<G::ScalarField>) -> G {
    fix_variables_spec(evals, point)[0]
}

/// The vertex of the `n`-dimensional hypercube with the given index, as a
/// point over the field: entry `i` is one where bit `i` of `index` is set,
/// and zero where it is not.
pub open spec fn vertex<F: Field>(index: usize, n: nat) -> Seq<F> {
    Seq::new(
        n,
        |i: int|
            if bit(index, i as usize) {
                F::one_spec()
            } else {
                F::zero_spec()
            },
    )
}

/// The table of the sum of two extensions: the sums of their entries.
pub open spec fn sum_spec<G: AdditiveGroup>(left: Seq<G>, right: Seq<G>) -> Seq<G> {
    Seq::new(left.len(), |i: int| left[i].add_spec(right[i]))
}

/// The table of the difference of two extensions.
pub open spec fn difference_spec<G: AdditiveGroup>(left: Seq<G>, right: Seq<G>) -> Seq<G> {
    Seq::new(left.len(), |i: int| left[i].sub_spec(right[i]))
}

/// The table of the negated extension.
pub open spec fn negation_spec<G: AdditiveGroup>(evals: Seq<G>) -> Seq<G> {
    Seq::new(evals.len(), |i: int| evals[i].neg_spec())
}

/// The table of `left + scalar * right`.
pub open spec fn scaled_sum_spec<G: Group>(
    left: Seq<G>,
    scalar: G::ScalarField,
    right: Seq<G>,
) -> Seq<G> {
    Seq::new(left.len(), |i: int| left[i].add_spec(right[i].scale_spec(scalar)))
}

/// Every entry of the table is the identity of the group.
pub open spec fn is_zero_spec<G: AdditiveGroup>(evals: Seq<G>) -> bool {
    forall|i: int| 0 <= i < evals.len() ==> evals[i] == G::zero_spec()
}

/// Relabelling moves the entry at an index to the index with the two bit
/// fields swapped.
pub proof fn lemma_relabel_moves_entries<T>(
    evals: Seq<T>,
    num_vars: nat,
    a: usize,
    b: usize,
    k: usize,
    i: usize,
)
    requires
        is_table(num_vars, evals),
        disjoint_fields(a, b, k, num_vars),
        i < evals.len(),
    ensures
        swap_bits_spec(i, a, b, k) < evals.len(),
        relabel_spec(evals, a, b, k)[swap_bits_spec(i, a, b, k) as int] == evals[i as int],
{
    lemma_usize_pow2_no_overflow(num_vars);
    lemma_swap_bits_bound(i, a, b, k, num_vars as usize);
    lemma_swap_bits_involution(i, a, b, k);
}

/// Relabelling twice with the same arguments gives back the table.
pub proof fn lemma_relabel_involution<T>(
    evals: Seq<T>,
    num_vars: nat,
    a: usize,
    b: usize,
    k: usize,
)
    requires
        is_table(num_vars, evals),
        disjoint_fields(a, b, k, num_vars),
    ensures
        relabel_spec(relabel_spec(evals, a, b, k), a, b, k) == evals,
{
    let once = relabel_spec(evals, a, b, k);
    let twice = relabel_spec(once, a, b, k);
    lemma_usize_pow2_no_overflow(num_vars);
    assert forall|j: int| 0 <= j < evals.len() implies twice[j] == evals[j] by {
        lemma_swap_bits_bound(j as usize, a, b, k, num_vars as usize);
        lemma_swap_bits_involution(j as usize, a, b, k);
    }
    assert(twice =~= evals);
}

/// Binding no variable leaves the table as it is.
pub proof fn lemma_fix_no_variables<G: Group>(evals: Seq<G>)
    ensures
        fix_variables_spec(evals, Seq::<G::ScalarField>::empty()) == evals,
{
}

/// Binding one variable halves the table.
pub proof fn lemma_fix_first_variable_is_table<G: Group>(
    evals: Seq<G>,
    num_vars: nat,
    v: G::ScalarField,
)
    requires
        is_table(num_vars, evals),
        num_vars > 0,
    ensures
        is_table((num_vars - 1) as nat, fix_first_variable(evals, v)),
{
    lemma_pow2_unfold(num_vars);
}

/// Binding `m` of `n` variables leaves the table of an extension in `n - m`
/// variables.
pub proof fn lemma_fix_variables_is_table<G: Group>(
    evals: Seq<G>,
    num_vars: nat,
    point: Seq<G::ScalarField>,
)
    requires
        is_table(num_vars, evals),
        point.len() <= num_vars,
    ensures
        is_table((num_vars - point.len()) as nat, fix_variables_spec(evals, point)),
    decreases point.len(),
{
    if point.len() > 0 {
        lemma_fix_variables_is_table(evals, num_vars, point.drop_last());
        lemma_fix_first_variable_is_table(
            fix_variables_spec(evals, point.drop_last()),
            (num_vars - point.len() + 1) as nat,
            point.last(),
        );
    }
}

/// Binding the variables of `first` and then those of `second` is binding
/// those of `first + second` at once.
pub proof fn lemma_fix_variables_in_rounds<G: Group>(
    evals: Seq<G>,
    first: Seq<G::ScalarField>,
    second: Seq<G::ScalarField>,
)
    ensures
        fix_variables_spec(fix_variables_spec(evals, first), second) == fix_variables_spec(
            evals,
            first + second,
        ),
    decreases second.len(),
{
    if second.len() == 0 {
        assert(first + second =~= first);
    } else {
        lemma_fix_variables_in_rounds(evals, first, second.drop_last());
        assert((first + second).drop_last() =~= first + second.drop_last());
        assert((first + second).last() == second.last());
    }
}

/// Bound to a bit, the lowest variable selects the entries whose index has
/// that bit.
proof fn lemma_fix_first_variable_at_bit<G: Group>(evals: Seq<G>, set: bool, i: int)
    requires
        0 <= i < evals.len() / 2,
    ensures
        fix_first_variable(
            evals,
            if set {
                G::ScalarField::one_spec()
            } else {
                G::ScalarField::zero_spec()
            },
        )[i] == evals[2 * i + if set {
            1int
        } else {
            0int
        }],
{
    G::ScalarField::lemma_one_minus_bit();
    G::lemma_scale_one_and_zero(evals[2 * i]);
    G::lemma_scale_one_and_zero(evals[2 * i + 1]);
    G::lemma_add_zero(evals[2 * i]);
    G::lemma_add_zero(evals[2 * i + 1]);
}

/// With the `m` lowest variables bound to the `m` lowest bits of `index`,
/// entry `i` of what remains is the entry of `evals` whose index has those
/// bits below the bits of `i`.
proof fn lemma_fix_variables_at_low_bits<G: Group>(
    evals: Seq<G>,
    num_vars: nat,
    index: usize,
    m: nat,
    i: int,
)
    requires
        is_table(num_vars, evals),
        m <= num_vars,
        0 <= i < pow2((num_vars - m) as nat),
    ensures
        0 <= i * pow2(m) + index as nat % pow2(m) < evals.len(),
        fix_variables_spec(evals, vertex::<G::ScalarField>(index, m))[i] == evals[i * pow2(m)
            + index as nat % pow2(m)],
    decreases m,
{
    lemma_pow2_pos(m);
    let point = vertex::<G::ScalarField>(index, m);
    let x = index as nat;
    if m == 0 {
        lemma2_to64();
        assert(x % 1 == 0);
        assert(i * 1 == i);
    } else {
        let prev = (m - 1) as nat;
        let low = pow2(prev);
        lemma_pow2_pos(prev);
        lemma_pow2_unfold(m);
        lemma_pow2_unfold((num_vars - prev) as nat);
        assert(point.drop_last() =~= vertex::<G::ScalarField>(index, prev));
        let before = fix_variables_spec(evals, vertex::<G::ScalarField>(index, prev));
        lemma_fix_variables_is_table(evals, num_vars, vertex::<G::ScalarField>(index, prev));
        let set = bit(index, prev as usize);
        lemma_bit_is_parity_of_quotient(index, prev as usize);
        let b = if set {
            1int
        } else {
            0int
        };
        assert(point.last() == if set {
            G::ScalarField::one_spec()
        } else {
            G::ScalarField::zero_spec()
        });
        lemma_fix_first_variable_at_bit(before, set, i);
        lemma_fix_variables_at_low_bits(evals, num_vars, index, prev, 2 * i + b);
        // x % 2^m == 2^(m-1) * bit + x % 2^(m-1)
        lemma_mod_breakdown(x as int, low as int, 2);
        assert((2 * i + b) * low + x % low == i * pow2(m) + x % pow2(m)) by (nonlinear_arith)
            requires
                pow2(m) == 2 * low,
                x % pow2(m) == low * ((x / low) % 2) + x % low,
                b == (x / low) % 2,
        ;
    }
}

/// Binding every variable to the coordinates of a vertex of the hypercube
/// leaves the single entry that the table holds at the index of that vertex.
pub proof fn lemma_fix_all_variables_at_vertex<G: Group>(
    evals: Seq<G>,
    num_vars: nat,
    index: usize,
)
    requires
        is_table(num_vars, evals),
        index < pow2(num_vars),
    ensures
        fix_variables_spec(evals, vertex::<G::ScalarField>(index, num_vars)) == seq![
            evals[index as int],
        ],
{
    let rest = fix_variables_spec(evals, vertex::<G::ScalarField>(index, num_vars));
    lemma_fix_variables_is_table(evals, num_vars, vertex::<G::ScalarField>(index, num_vars));
    lemma2_to64();
    lemma_fix_variables_at_low_bits(evals, num_vars, index, num_vars, 0);
    lemma_small_mod(index as nat, pow2(num_vars));
    assert(rest =~= seq![evals[index as int]]);
}

/// On the hypercube the extension takes the values of its table.
pub proof fn lemma_evaluate_at_vertex<G: Group>(evals: Seq<G>, num_vars: nat, index: usize)
    requires
        is_table(num_vars, evals),
        index < pow2(num_vars),
    ensures
        evaluate_spec(evals, vertex::<G::ScalarField>(index, num_vars)) == evals[index as int],
{
    lemma_fix_all_variables_at_vertex(evals, num_vars, index);
}

/// On the hypercube, the relabelled extension takes at a point the value
/// that the extension takes at the point with the coordinates of the two
/// ranges exchanged.
pub proof fn lemma_relabel_at_vertex<G: Group>(
    evals: Seq<G>,
    num_vars: nat,
    a: usize,
    b: usize,
    k: usize,
    index: usize,
)
    requires
        is_table(num_vars, evals),
        disjoint_fields(a, b, k, num_vars),
        index < pow2(num_vars),
    ensures
        swap_bits_spec(index, a, b, k) < pow2(num_vars),
        evaluate_spec(relabel_spec(evals, a, b, k), vertex::<G::ScalarField>(index, num_vars))
            == evaluate_spec(
            evals,
            vertex::<G::ScalarField>(swap_bits_spec(index, a, b, k), num_vars),
        ),
        forall|i: int|
            0 <= i < num_vars ==> vertex::<G::ScalarField>(
                swap_bits_spec(index, a, b, k),
                num_vars,
            )[i] == vertex::<G::ScalarField>(index, num_vars)[#[trigger] source_bit(
                i as usize,
                a,
                b,
                k,
            ) as int],
{
    let swapped = swap_bits_spec(index, a, b, k);
    lemma_swap_bits_bound(index, a, b, k, num_vars as usize);
    lemma_evaluate_at_vertex(relabel_spec(evals, a, b, k), num_vars, index);
    lemma_evaluate_at_vertex(evals, num_vars, swapped);
    assert forall|i: int| 0 <= i < num_vars implies vertex::<G::ScalarField>(
        swapped,
        num_vars,
    )[i] == vertex::<G::ScalarField>(index, num_vars)[#[trigger] source_bit(
        i as usize,
        a,
        b,
        k,
    ) as int] by {
        lemma_swap_bits_bit(index, a, b, k, i as usize);
    }
}

} // verus!
