//! The mathematical model of the wire: sequences of bits, most significant
//! bit first, and the numbers they stand for.

use vstd::prelude::*;
use vstd::arithmetic::power2::{pow2, lemma_pow2_unfold, lemma_pow2_pos, lemma2_to64};

verus! {

/// The `width` low bits of `value`, most significant first.
pub open spec fn bits_of(value: nat, width: nat) -> Seq<bool>
    decreases width,
{
    if width == 0 {
        Seq::empty()
    } else {
        bits_of(value / 2, (width - 1) as nat).push(value % 2 == 1)
    }
}

/// The number that a run of bits spells, most significant first.
pub open spec fn value_of(bits: Seq<bool>) -> nat
    decreases bits.len(),
{
    if bits.len() == 0 {
        0
    } else {
        2 * value_of(bits.drop_last()) + if bits.last() { 1nat } else { 0nat }
    }
}

/// The bits of a run of bytes: bit `i` lives in byte `i / 8`, and a byte's
/// most significant bit comes first.
pub open spec fn bytes_bits(bytes: Seq<u8>) -> Seq<bool> {
    Seq::new(8 * bytes.len(), |i: int| bits_of(bytes[i / 8] as nat, 8)[i % 8])
}

/// `bits` with the run `patch` written over it from position `at` on.
#[verifier::opaque]
pub open spec fn overwrite(bits: Seq<bool>, at: int, patch: Seq<bool>) -> Seq<bool> {
    bits.subrange(0, at) + patch + bits.subrange(at + patch.len(), bits.len() as int)
}

pub proof fn lemma_bits_of_len(value: nat, width: nat)
    ensures
        bits_of(value, width).len() == width,
    decreases width,
{
    if width > 0 {
        lemma_bits_of_len(value / 2, (width - 1) as nat);
    }
}

pub proof fn lemma_value_of_bound(bits: Seq<bool>)
    ensures
        value_of(bits) < pow2(bits.len()),
    decreases bits.len(),
{
    if bits.len() == 0 {
        lemma2_to64();
    } else {
        lemma_value_of_bound(bits.drop_last());
        lemma_pow2_unfold(bits.len());
    }
}

/// Reading back what `bits_of` wrote gives the value, when it fits the width.
pub proof fn lemma_value_of_bits_of(value: nat, width: nat)
    requires
        value < pow2(width),
    ensures
        value_of(bits_of(value, width)) == value,
    decreases width,
{
    if width == 0 {
        lemma2_to64();
    } else {
        lemma_pow2_unfold(width);
        lemma_value_of_bits_of(value / 2, (width - 1) as nat);
        let all = bits_of(value, width);
        assert(all.drop_last() == bits_of(value / 2, (width - 1) as nat));
    }
}

pub proof fn lemma_overwrite_len(bits: Seq<bool>, at: int, patch: Seq<bool>)
    requires
        0 <= at,
        at + patch.len() <= bits.len(),
    ensures
        overwrite(bits, at, patch).len() == bits.len(),
        overwrite(bits, at, patch).subrange(at, at + patch.len()) == patch,
        overwrite(bits, at, patch).subrange(0, at) == bits.subrange(0, at),
        overwrite(bits, at, patch).subrange(at + patch.len(), bits.len() as int) == bits.subrange(
            at + patch.len(),
            bits.len() as int,
        ),
{
    reveal(overwrite);
}

/// Writing nothing changes nothing.
pub proof fn lemma_overwrite_nothing(bits: Seq<bool>, at: int)
    requires
        0 <= at <= bits.len(),
    ensures
        overwrite(bits, at, Seq::empty()) == bits,
{
    reveal(overwrite);
}

/// Two writes side by side are one write of the two runs joined.
pub proof fn lemma_overwrite_twice(bits: Seq<bool>, at: int, first: Seq<bool>, second: Seq<bool>)
    requires
        0 <= at,
        at + first.len() + second.len() <= bits.len(),
    ensures
        overwrite(overwrite(bits, at, first), at + first.len(), second) == overwrite(
            bits,
            at,
            first + second,
        ),
{
    reveal(overwrite);
}

/// The powers of two that bound the 32-bit fields.
pub proof fn lemma_pow2_32()
    ensures
        pow2(0) == 1,
        pow2(1) == 2,
        pow2(8) == 0x100,
        pow2(16) == 0x10000,
        pow2(31) == 0x8000_0000,
        pow2(32) == 0x1_0000_0000,
{
    lemma2_to64();
}

/// Where a run was written, each part of it stands at its own offset.
pub proof fn lemma_part_written(
    bits: Seq<bool>,
    at: int,
    whole: Seq<bool>,
    offset: int,
    part: Seq<bool>,
)
    requires
        0 <= at,
        at + whole.len() <= bits.len(),
        bits.subrange(at, at + whole.len()) == whole,
        0 <= offset,
        offset + part.len() <= whole.len(),
        whole.subrange(offset, offset + part.len()) == part,
    ensures
        bits.subrange(at + offset, at + offset + part.len()) == part,
{
    assert(bits.subrange(at + offset, at + offset + part.len()) == bits.subrange(
        at,
        at + whole.len(),
    ).subrange(offset, offset + part.len()));
}

/// Where two runs were written one after the other, each stands in its
/// own place.
pub proof fn lemma_split_written(bits: Seq<bool>, at: int, first: Seq<bool>, second: Seq<bool>)
    requires
        0 <= at,
        at + first.len() + second.len() <= bits.len(),
        bits.subrange(at, at + first.len() + second.len()) == first + second,
    ensures
        bits.subrange(at, at + first.len()) == first,
        bits.subrange(at + first.len(), at + first.len() + second.len()) == second,
{
    let whole = first + second;
    assert(whole.subrange(0, first.len() as int) == first);
    assert(whole.subrange(first.len() as int, whole.len() as int) == second);
    lemma_part_written(bits, at, whole, 0, first);
    lemma_part_written(bits, at, whole, first.len() as int, second);
}

} // verus!
