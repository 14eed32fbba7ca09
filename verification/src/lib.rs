//! Multilinear extensions: polynomials of degree at most one in each
//! variable, given by their evaluations on the Boolean hypercube.
//!
//! - [`bits`]: exchanging two bit fields of a hypercube index, the
//!   permutation behind the renaming of variables.
//! - [`algebra`]: the fields and groups that the evaluations live in.
//! - [`hypercube`]: what the operations of an extension mean, as
//!   specifications on tables of evaluations, and the laws that hold of them.
//! - [`codec`]: the canonical byte form of a table.
//! - [`multilinear`]: the contract that every representation of an extension
//!   meets.
//! - [`table`]: the operations, carried out on a table held in memory.
//! - [`dense`]: extensions that keep their whole table.
//! - [`gf2`]: the field with two elements.

pub mod algebra;
pub mod bits;
pub mod codec;
pub mod dense;
pub mod gf2;
pub mod hypercube;
pub mod multilinear;
pub mod table;
