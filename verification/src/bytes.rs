//! Fixed-width little-endian integers.
use vstd::prelude::*;

verus! {

/// The `width` low bytes of `value`, lowest first.
pub open spec fn le_bytes(value: nat, width: nat) -> Seq<u8>
    decreases width,
{
    if width == 0 {
        Seq::<u8>::empty()
    } else {
        seq![(value % 256) as u8] + le_bytes(value / 256, (width - 1) as nat)
    }
}

/// The number whose bytes, lowest first, are `bytes`.
pub open spec fn le_value(bytes: Seq<u8>) -> nat
    decreases bytes.len(),
{
    if bytes.len() == 0 {
        0
    } else {
        bytes[0] as nat + 256 * le_value(bytes.skip(1))
    }
}

/// Appends `value` as eight bytes, lowest first.
pub fn push_le_u64(out: &mut Vec<u8>, value: u64)
    ensures
        final(out)@ == old(out)@ + le_bytes(value as nat, 8),
{
    let ghost before = out@;
    let mut rest: u64 = value;
    let mut done: usize = 0;
    while done < 8
        invariant
            done <= 8,
            out@ + le_bytes(rest as nat, (8 - done) as nat) == before + le_bytes(value as nat, 8),
        decreases 8 - done,
    {
        let low: u8 = (rest % 256) as u8;
        proof {
            let tail = le_bytes((rest / 256) as nat, (7 - done) as nat);
            assert(out@ + (seq![low] + tail) =~= out@.push(low) + tail);
        }
        out.push(low);
        rest = rest / 256;
        done = done + 1;
    }
    assert(out@ + le_bytes(rest as nat, 0) =~= out@);
}

/// `width` bytes are written.
pub proof fn le_bytes_has_width(value: nat, width: nat)
    ensures
        le_bytes(value, width).len() == width,
    decreases width,
{
    if width > 0 {
        le_bytes_has_width(value / 256, (width - 1) as nat);
    }
}

/// Reading eight written bytes gives the number back.
pub proof fn le_bytes_round_trip(value: u64)
    ensures
        le_value(le_bytes(value as nat, 8)) == value,
{
    reveal_with_fuel(vstd::arithmetic::power::pow, 9);
    le_value_of_bytes(value as nat, 8, 0x1_0000_0000_0000_0000);
}

/// A number under `256^width`, here `bound`, is read back from its bytes.
proof fn le_value_of_bytes(value: nat, width: nat, bound: nat)
    requires
        value < bound,
        bound == vstd::arithmetic::power::pow(256, width),
    ensures
        le_value(le_bytes(value, width)) == value,
    decreases width,
{
    reveal(vstd::arithmetic::power::pow);
    if width > 0 {
        let tail = le_bytes(value / 256, (width - 1) as nat);
        let below = vstd::arithmetic::power::pow(256, (width - 1) as nat);
        assert(bound == 256 * below);
        le_value_of_bytes(value / 256, (width - 1) as nat, below as nat);
        assert(le_bytes(value, width).skip(1) =~= tail);
    }
}

/// The byte at place `k` is the digit of that place in base 256.
pub proof fn bytes_are_digits_in_base_256(value: nat, width: nat, k: nat)
    requires
        k < width,
    ensures
        le_bytes(value, width).len() == width,
        le_bytes(value, width)[k as int] == (value as int / vstd::arithmetic::power::pow(256, k))
            % 256,
    decreases k,
{
    le_bytes_has_width(value, width);
    reveal(vstd::arithmetic::power::pow);
    if k > 0 {
        bytes_are_digits_in_base_256(value / 256, (width - 1) as nat, (k - 1) as nat);
        let below = vstd::arithmetic::power::pow(256, (k - 1) as nat);
        vstd::arithmetic::power::lemma_pow_positive(256, (k - 1) as nat);
        vstd::arithmetic::div_mod::lemma_div_denominator(value as int, 256, below);
        assert(vstd::arithmetic::power::pow(256, k) == 256 * below);
    } else {
        assert(vstd::arithmetic::power::pow(256, 0) == 1);
    }
}

} // verus!
