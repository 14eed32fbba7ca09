//! The canonical byte form of a table of evaluations.
//!
//! A table is written as the number of its entries, the entries in the
//! order of their indices, and the number of variables. Both numbers are
//! written as `ark_serialize` writes a `u64`, in eight bytes with the least
//! significant byte first; how an entry is written is with the type of the
//! entries. Over arkworks fields this is the encoding that `ark_serialize`
//! gives to a vector of entries followed by a number.

use crate::algebra::{Bytes, Canonical};
use crate::bits::lemma_one_shl_is_pow2;
use crate::hypercube::is_table;
use vstd::arithmetic::power2::pow2;
use vstd::bits::lemma_usize_pow2_no_overflow;
use ark_serialize::{CanonicalDeserialize, CanonicalSerialize};
use vstd::bytes::{
    lemma_auto_spec_u64_to_from_le_bytes, spec_u64_from_le_bytes, spec_u64_to_le_bytes,
};
use vstd::prelude::*;
use vstd::slice::slice_subrange;

verus! {

/// Why a string of bytes was not read as a table.
#[derive(Clone, Copy, Debug, PartialEq, Eq, Structural)]
pub enum DecodeError {
    /// The bytes end before the entry count or the number of variables.
    Truncated,
    /// An entry is missing or is not a valid encoding.
    InvalidElement,
    /// The entry count is not two to the number of variables.
    ShapeMismatch,
    /// Bytes follow the number of variables.
    TrailingBytes,
}

/// The encodings of the entries of `evals`, one after the other.
pub open spec fn encode_elements<G: Canonical>(evals: Seq<G>) -> Bytes
    decreases evals.len(),
{
    if evals.len() == 0 {
        Seq::empty()
    } else {
        encode_elements(evals.drop_last()) + evals.last().encoding()
    }
}

/// The canonical bytes of the table `evals` in `num_vars` variables.
pub open spec fn serialize_spec<G: Canonical>(num_vars: nat, evals: Seq<G>) -> Bytes {
    spec_u64_to_le_bytes(evals.len() as u64) + encode_elements(evals) + spec_u64_to_le_bytes(
        num_vars as u64,
    )
}

/// The first `count` values that `bytes` holds one after the other, and the
/// number of bytes they take up; `None` where fewer can be read.
pub open spec fn decode_elements<G: Canonical>(bytes: Bytes, count: nat) -> Option<(Seq<G>, nat)>
    decreases count,
{
    if count == 0 {
        Some((Seq::empty(), 0nat))
    } else {
        match decode_elements::<G>(bytes, (count - 1) as nat) {
            None => None,
            Some((init, used)) => match G::decoding(bytes.skip(used as int)) {
                None => None,
                Some((last, n)) => Some((init.push(last), (used + n) as nat)),
            },
        }
    }
}

/// The number of variables and the table that `bytes` is the canonical form
/// of, or the reason why it is the canonical form of none.
pub open spec fn deserialize_spec<G: Canonical>(bytes: Bytes) -> Result<(nat, Seq<G>), DecodeError> {
    if bytes.len() < 8 {
        Err(DecodeError::Truncated)
    } else {
        let count = spec_u64_from_le_bytes(bytes.take(8)) as nat;
        match decode_elements::<G>(bytes.skip(8), count) {
            None => Err(DecodeError::InvalidElement),
            Some((evals, used)) => {
                let rest = bytes.skip((8 + used) as int);
                if rest.len() < 8 {
                    Err(DecodeError::Truncated)
                } else if rest.len() > 8 {
                    Err(DecodeError::TrailingBytes)
                } else {
                    let num_vars = spec_u64_from_le_bytes(rest) as nat;
                    if num_vars < usize::BITS && count == pow2(num_vars) {
                        Ok((num_vars, evals))
                    } else {
                        Err(DecodeError::ShapeMismatch)
                    }
                }
            },
        }
    }
}

/// Values that were read lie within the bytes they were read from.
pub proof fn lemma_decode_elements_consumes<G: Canonical>(bytes: Bytes, count: nat)
    ensures
        decode_elements::<G>(bytes, count) matches Some((evals, used)) ==> evals.len() == count
            && count <= used <= bytes.len(),
    decreases count,
{
    if count > 0 {
        lemma_decode_elements_consumes::<G>(bytes, (count - 1) as nat);
        if let Some((init, used)) = decode_elements::<G>(bytes, (count - 1) as nat) {
            G::lemma_decoding_consumes(bytes.skip(used as int));
        }
    }
}

/// Where `count` values cannot be read, more cannot be read either.
pub proof fn lemma_decode_elements_fails_on<G: Canonical>(bytes: Bytes, count: nat, more: nat)
    requires
        decode_elements::<G>(bytes, count) is None,
        count <= more,
    ensures
        decode_elements::<G>(bytes, more) is None,
    decreases more,
{
    if count < more {
        lemma_decode_elements_fails_on::<G>(bytes, count, (more - 1) as nat);
    }
}

/// The entries of a table are read back from their encodings, whatever
/// follows them.
pub proof fn lemma_decode_elements_inverts_encoding<G: Canonical>(evals: Seq<G>, rest: Bytes)
    ensures
        decode_elements::<G>(encode_elements(evals) + rest, evals.len()) == Some(
            (evals, encode_elements(evals).len()),
        ),
    decreases evals.len(),
{
    if evals.len() > 0 {
        let init = evals.drop_last();
        let last = evals.last();
        let bytes = encode_elements(evals) + rest;
        lemma_decode_elements_inverts_encoding(init, last.encoding() + rest);
        assert(bytes =~= encode_elements(init) + (last.encoding() + rest));
        assert(bytes.skip(encode_elements(init).len() as int) =~= last.encoding() + rest);
        last.lemma_decoding_inverts_encoding(rest);
        assert(init.push(last) =~= evals);
    }
}

/// The canonical bytes of a table are read back as that table.
pub proof fn lemma_deserialize_inverts_serialize<G: Canonical>(num_vars: nat, evals: Seq<G>)
    requires
        is_table(num_vars, evals),
    ensures
        deserialize_spec::<G>(serialize_spec(num_vars, evals)) == Ok::<
            (nat, Seq<G>),
            DecodeError,
        >((num_vars, evals)),
{
    lemma_auto_spec_u64_to_from_le_bytes();
    lemma_usize_pow2_no_overflow(num_vars);
    let head = spec_u64_to_le_bytes(evals.len() as u64);
    let body = encode_elements(evals);
    let tail = spec_u64_to_le_bytes(num_vars as u64);
    let bytes = serialize_spec(num_vars, evals);
    assert(bytes.take(8) =~= head);
    assert(bytes.skip(8) =~= body + tail);
    lemma_decode_elements_inverts_encoding(evals, tail);
    assert(bytes.skip((8 + body.len()) as int) =~= tail);
}

/// Appends to `out` what `ark_serialize` writes for a `u64`
/// (`CanonicalSerialize::serialize_compressed`): its eight bytes, least
/// significant byte first. Taken on trust from `ark_serialize`.
#[verifier::external_body]
fn write_u64(x: u64, out: &mut Vec<u8>)
    ensures
        final(out)@ == old(out)@ + spec_u64_to_le_bytes(x),
{
    x.serialize_compressed(&mut *out).expect("a vector takes every write");
}

/// Reads a `u64` from the front of `bytes` as `ark_serialize` does
/// (`CanonicalDeserialize::deserialize_compressed`): the number whose eight
/// bytes, least significant byte first, `bytes` starts with, and `None`
/// where there are fewer than eight. Taken on trust from `ark_serialize`.
#[verifier::external_body]
fn read_u64(bytes: &[u8]) -> (r: Option<u64>)
    ensures
        r == if bytes@.len() >= 8 {
            Some(spec_u64_from_le_bytes(bytes@.take(8)))
        } else {
            None::<u64>
        },
{
    u64::deserialize_compressed(bytes).ok()
}

/// Writes the canonical bytes of the table `evals` in `num_vars` variables.
pub fn serialize_table<G: Canonical>(evals: &Vec<G>, num_vars: usize) -> (out: Vec<u8>)
    ensures
        out@ == serialize_spec(num_vars as nat, evals@),
{
    let len = evals.len();
    let mut out: Vec<u8> = Vec::new();
    write_u64(len as u64, &mut out);
    assert(out@ =~= spec_u64_to_le_bytes(len as u64));
    let mut i: usize = 0;
    while i < len
        invariant
            len == evals@.len(),
            i <= len,
            out@ == spec_u64_to_le_bytes(len as u64) + encode_elements(evals@.take(i as int)),
        decreases len - i,
    {
        evals[i].encode(&mut out);
        proof {
            let next = evals@.take(i + 1);
            assert(next.drop_last() =~= evals@.take(i as int));
            assert(next.last() == evals@[i as int]);
            assert(out@ =~= spec_u64_to_le_bytes(len as u64) + encode_elements(next));
        }
        i += 1;
    }
    write_u64(num_vars as u64, &mut out);
    assert(evals@.take(len as int) =~= evals@);
    out
}

/// Reads a table from its canonical bytes: `Ok` with the number of
/// variables and the table where `bytes` is the canonical form of one, and
/// otherwise the reason why it is not.
pub fn deserialize_table<G: Canonical>(bytes: &[u8]) -> (r: Result<(usize, Vec<G>), DecodeError>)
    ensures
        match r {
            Ok((num_vars, evals)) => deserialize_spec::<G>(bytes@) == Ok::<
                (nat, Seq<G>),
                DecodeError,
            >((num_vars as nat, evals@)) && is_table(num_vars as nat, evals@),
            Err(e) => deserialize_spec::<G>(bytes@) == Err::<(nat, Seq<G>), DecodeError>(e),
        },
{
    let total = bytes.len();
    let count = match read_u64(bytes) {
        Some(count) => count,
        None => {
            return Err(DecodeError::Truncated);
        },
    };
    let ghost body = bytes@.skip(8);
    let mut evals: Vec<G> = Vec::new();
    let mut pos: usize = 8;
    let mut i: u64 = 0;
    while i < count
        invariant
            total == bytes@.len(),
            body == bytes@.skip(8),
            count == spec_u64_from_le_bytes(bytes@.take(8)),
            8 <= pos <= total,
            i <= count,
            decode_elements::<G>(body, i as nat) == Some((evals@, (pos - 8) as nat)),
        decreases count - i,
    {
        let next = G::decode(slice_subrange(bytes, pos, total));
        proof {
            assert(bytes@.subrange(pos as int, total as int) =~= body.skip(pos - 8));
            G::lemma_decoding_consumes(body.skip(pos - 8));
        }
        match next {
            None => {
                proof {
                    assert(decode_elements::<G>(body, (i + 1) as nat) is None);
                    lemma_decode_elements_fails_on::<G>(body, (i + 1) as nat, count as nat);
                }
                return Err(DecodeError::InvalidElement);
            },
            Some((value, n)) => {
                evals.push(value);
                pos = pos + n;
            },
        }
        i += 1;
    }
    let rest = slice_subrange(bytes, pos, total);
    assert(rest@ =~= bytes@.skip(8 + (pos - 8)));
    let num_vars = match read_u64(rest) {
        Some(num_vars) => num_vars,
        None => {
            return Err(DecodeError::Truncated);
        },
    };
    if total - pos > 8 {
        return Err(DecodeError::TrailingBytes);
    }
    assert(rest@.take(8) =~= rest@);
    if num_vars >= usize::BITS as u64 {
        return Err(DecodeError::ShapeMismatch);
    }
    proof {
        lemma_one_shl_is_pow2(num_vars as usize);
    }
    if count != (1usize << (num_vars as usize)) as u64 {
        return Err(DecodeError::ShapeMismatch);
    }
    proof {
        lemma_decode_elements_consumes::<G>(body, count as nat);
    }
    Ok((num_vars as usize, evals))
}

} // verus!
