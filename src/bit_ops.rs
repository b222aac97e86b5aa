use intbits::Bits;
use vstd::prelude::*;

verus! {

/// Whether bit `i` of `v` is set.
pub open spec fn bit_set(v: u128, i: u128) -> bool {
    (v >> i) & 1 == 1
}

/// Relies on intbits' `Bits::bit` for `u128` (`v >> i & 1 != 0`), which
/// panics on an index above 127.
#[verifier::external_body]
pub(crate) fn bit_of(v: u128, i: u8) -> (r: bool)
    requires
        i < 128,
    ensures
        r == bit_set(v, i as u128),
{
    v.bit(i)
}

/// Relies on intbits' `Bits::set_bit` for `u128`
/// (`*v = *v & !(1 << i) | (bit as u128) << i`), which panics on an index
/// above 127.
#[verifier::external_body]
pub(crate) fn put_bit(v: &mut u128, i: u8, bit: bool)
    requires
        i < 128,
    ensures
        *final(v) == if bit {
            *old(v) | (1u128 << (i as u128))
        } else {
            *old(v) & !(1u128 << (i as u128))
        },
{
    v.set_bit(i, bit)
}

/// Relies on intbits' `Bits::bits` for `u128` over `lo..hi`: it keeps the
/// low `hi` bits (mask `!0 >> 1 >> (127 - hi)`) and shifts them down by
/// `lo`. Bounds above 128 make it panic; `hi` is kept below 128 here, where
/// that mask applies.
#[verifier::external_body]
pub(crate) fn bit_range(v: u128, lo: u8, hi: u8) -> (r: u128)
    requires
        lo <= hi,
        hi <= 127,
    ensures
        r == (v & ((!0u128 >> 1u128) >> ((127 - hi) as u128))) >> (lo as u128),
{
    v.bits(lo..hi)
}

} // verus!
