//! The bit vector that stores a board, and what is taken on trust about it.

use bit_vec::BitVec;
use vstd::prelude::*;

verus! {

/// `bit_vec::BitVec`, of which nothing is known but what the functions below say.
#[verifier::external_type_specification]
#[verifier::external_body]
#[verifier::reject_recursive_types(B)]
pub struct ExBitVec<B>(BitVec<B>);

/// The bits that a `BitVec` holds, in index order.
pub uninterp spec fn bit_vec_cells(v: BitVec) -> Seq<bool>;

/// `BitVec::from_elem`: trusted to give a vector of `len` bits, each equal to `bit`.
#[verifier::external_body]
pub(crate) fn cells_from_elem(len: usize, bit: bool) -> (v: BitVec)
    ensures
        bit_vec_cells(v) == Seq::new(len as nat, |i: int| bit),
{
    BitVec::from_elem(len, bit)
}

/// `BitVec::len`: trusted to give the number of bits held.
#[verifier::external_body]
pub(crate) fn cells_len(v: &BitVec) -> (n: usize)
    ensures
        n == bit_vec_cells(*v).len(),
{
    v.len()
}

/// Indexing a `BitVec`: trusted to give the bit at `i`. An index past the end
/// makes the outside code panic, so it is left out.
#[verifier::external_body]
pub(crate) fn cells_get(v: &BitVec, i: usize) -> (bit: bool)
    requires
        i < bit_vec_cells(*v).len(),
    ensures
        bit == bit_vec_cells(*v)[i as int],
{
    v[i]
}

/// `BitVec::set`: trusted to replace the bit at `i` by `x` and to leave every
/// other bit and the length alone. An index past the end makes the outside
/// code panic, so it is left out.
#[verifier::external_body]
pub(crate) fn cells_set(v: &mut BitVec, i: usize, x: bool)
    requires
        i < bit_vec_cells(*old(v)).len(),
    ensures
        bit_vec_cells(*final(v)) == bit_vec_cells(*old(v)).update(i as int, x),
{
    v.set(i, x)
}

/// `Clone::clone` of a `BitVec`: trusted to give a vector holding the same bits.
#[verifier::external_body]
pub(crate) fn cells_clone(v: &BitVec) -> (copy: BitVec)
    ensures
        bit_vec_cells(copy) == bit_vec_cells(*v),
{
    v.clone()
}

} // verus!
