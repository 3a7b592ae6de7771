//! The packed bit storage of a grid, kept in a `fixedbitset::FixedBitSet`.
use fixedbitset::FixedBitSet;
use vstd::prelude::*;

verus! {

#[verifier::external_type_specification]
#[verifier::external_body]
pub struct ExFixedBitSet(FixedBitSet);

/// The bits a set holds, in order of position: `bits_of(b)[i]` is bit `i`,
/// and the length is the set's length in bits.
pub uninterp spec fn bits_of(b: FixedBitSet) -> Seq<bool>;

/// Relies on `FixedBitSet::with_capacity`: `n` bits, all cleared.
#[verifier::external_body]
pub(crate) fn bits_with_capacity(n: usize) -> (r: FixedBitSet)
    ensures
        bits_of(r) == Seq::new(n as nat, |i: int| false),
{
    FixedBitSet::with_capacity(n)
}

/// Relies on `FixedBitSet::set`: writes bit `i` and no other; it panics
/// when `i` is not below the length, which `requires` rules out.
#[verifier::external_body]
pub(crate) fn bits_set(b: &mut FixedBitSet, i: usize, enabled: bool)
    requires
        i < bits_of(*old(b)).len(),
    ensures
        bits_of(*final(b)) == bits_of(*old(b)).update(i as int, enabled),
{
    b.set(i, enabled)
}

/// Relies on `FixedBitSet`'s `Index<usize>`: the value of bit `i`.
#[verifier::external_body]
pub(crate) fn bits_get(b: &FixedBitSet, i: usize) -> (r: bool)
    requires
        i < bits_of(*b).len(),
    ensures
        r == bits_of(*b)[i as int],
{
    b[i]
}

/// Relies on `FixedBitSet::grow`: a length under `n` becomes `n`, a length of
/// `n` or more is left as it is, and every existing bit keeps its value.
#[verifier::external_body]
pub(crate) fn bits_grow(b: &mut FixedBitSet, n: usize)
    ensures
        bits_of(*final(b)).len() == if n > bits_of(*old(b)).len() {
            n as nat
        } else {
            bits_of(*old(b)).len()
        },
        forall|i: int|
            0 <= i < bits_of(*old(b)).len() ==> #[trigger] bits_of(*final(b))[i] == bits_of(
                *old(b),
            )[i],
{
    b.grow(n)
}

/// Relies on `FixedBitSet`'s `Clone`: a copy with the same bits.
#[verifier::external_body]
pub(crate) fn bits_clone(b: &FixedBitSet) -> (r: FixedBitSet)
    ensures
        bits_of(r) == bits_of(*b),
{
    b.clone()
}

} // verus!
