//! Big-endian (most significant byte first) encoding of unsigned integers.

use vstd::prelude::*;

verus! {

/// `256` raised to the power `n`: the number of values that `n` bytes can hold.
pub open spec fn pow256(n: nat) -> nat
    decreases n,
{
    if n == 0 {
        1
    } else {
        256 * pow256((n - 1) as nat)
    }
}

/// The number that `bytes` denotes when read most significant byte first.
pub open spec fn be_value(bytes: Seq<u8>) -> nat
    decreases bytes.len(),
{
    if bytes.len() == 0 {
        0
    } else {
        256 * be_value(bytes.drop_last()) + bytes.last() as nat
    }
}

/// The `width` least significant base-256 digits of `value`, most significant
/// first. Digits of `value` beyond `width` are left out; a `value` with fewer
/// digits is preceded by zero bytes.
pub open spec fn be_bytes(value: nat, width: nat) -> Seq<u8>
    decreases width,
{
    if width == 0 {
        Seq::empty()
    } else {
        be_bytes(value / 256, (width - 1) as nat).push((value % 256) as u8)
    }
}

/// `be_bytes` yields exactly `width` bytes.
pub proof fn lemma_be_bytes_len(value: nat, width: nat)
    ensures
        be_bytes(value, width).len() == width,
    decreases width,
{
    if width > 0 {
        lemma_be_bytes_len(value / 256, (width - 1) as nat);
    }
}

/// A sequence of `n` bytes denotes a number below `256^n`.
pub proof fn lemma_be_value_bound(bytes: Seq<u8>)
    ensures
        be_value(bytes) < pow256(bytes.len()),
    decreases bytes.len(),
{
    if bytes.len() > 0 {
        lemma_be_value_bound(bytes.drop_last());
    }
}

/// Reading back the bytes of a number that fits in `width` bytes gives the number.
pub proof fn lemma_be_value_of_be_bytes(value: nat, width: nat)
    requires
        value < pow256(width),
    ensures
        be_value(be_bytes(value, width)) == value,
    decreases width,
{
    if width > 0 {
        let rest = be_bytes(value / 256, (width - 1) as nat);
        lemma_be_value_of_be_bytes(value / 256, (width - 1) as nat);
        assert(be_bytes(value, width).drop_last() =~= rest);
    }
}

/// Writing the number that a byte sequence denotes, at the sequence's own
/// width, gives the sequence back.
pub proof fn lemma_be_bytes_of_be_value(bytes: Seq<u8>)
    ensures
        be_bytes(be_value(bytes), bytes.len()) == bytes,
    decreases bytes.len(),
{
    if bytes.len() > 0 {
        lemma_be_bytes_of_be_value(bytes.drop_last());
    }
}

/// Zero is written as zero bytes only, whatever the width.
pub proof fn lemma_be_bytes_of_zero(width: nat)
    ensures
        be_bytes(0, width) == Seq::new(width, |i: int| 0u8),
    decreases width,
{
    if width > 0 {
        lemma_be_bytes_of_zero((width - 1) as nat);
        lemma_be_bytes_len(0, (width - 1) as nat);
    }
}

/// The largest number that fits in `width` bytes is written with every bit set.
pub proof fn lemma_be_bytes_of_max(width: nat)
    ensures
        pow256(width) >= 1,
        be_bytes((pow256(width) - 1) as nat, width) == Seq::new(width, |i: int| 0xffu8),
    decreases width,
{
    if width > 0 {
        lemma_be_bytes_of_max((width - 1) as nat);
        lemma_be_bytes_len((pow256((width - 1) as nat) - 1) as nat, (width - 1) as nat);
    }
}

/// Writes the `width` least significant bytes of `value`, most significant
/// byte first. A width beyond eight bytes is filled with leading zero bytes.
pub fn to_be_bytes(value: u64, width: usize) -> (bytes: Vec<u8>)
    ensures
        bytes@ == be_bytes(value as nat, width as nat),
{
    let mut bytes: Vec<u8> = Vec::new();
    let mut filled: usize = 0;
    while filled < width
        invariant
            filled <= width,
            bytes@.len() == filled,
        decreases width - filled,
    {
        bytes.push(0u8);
        filled = filled + 1;
    }
    let mut rest: u64 = value;
    let mut at: usize = width;
    while at > 0
        invariant
            at <= width,
            bytes@.len() == width,
            be_bytes(value as nat, width as nat) == be_bytes(rest as nat, at as nat)
                + bytes@.subrange(at as int, width as int),
        decreases at,
    {
        let digit: u8 = (rest % 256) as u8;
        at = at - 1;
        bytes.set(at, digit);
        rest = rest / 256;
    }
    bytes
}

/// Reads up to eight bytes as one number, most significant byte first.
pub fn from_be_bytes(bytes: &[u8]) -> (value: u64)
    requires
        bytes@.len() <= 8,
    ensures
        value as nat == be_value(bytes@),
{
    let mut value: u64 = 0;
    let mut read: usize = 0;
    while read < bytes.len()
        invariant
            read <= bytes@.len() <= 8,
            value as nat == be_value(bytes@.take(read as int)),
        decreases bytes@.len() - read,
    {
        proof {
            let next = bytes@.take(read + 1);
            assert(next.drop_last() =~= bytes@.take(read as int));
            lemma_be_value_bound(next);
            lemma_pow256_monotonic(next.len(), 8);
            lemma_pow256_of_eight();
        }
        value = value * 256 + bytes[read] as u64;
        read = read + 1;
    }
    proof {
        assert(bytes@.take(read as int) =~= bytes@);
    }
    value
}

/// Reads two bytes as a `u16`, most significant byte first.
pub fn u16_from_be_bytes(bytes: [u8; 2]) -> (value: u16)
    ensures
        value as nat == be_value(bytes@),
{
    proof {
        lemma_be_value_bound(bytes@);
        lemma_pow256_of_eight();
    }
    from_be_bytes(bytes.as_slice()) as u16
}

/// Reads eight bytes as a `u64`, most significant byte first.
pub fn u64_from_be_bytes(bytes: [u8; 8]) -> (value: u64)
    ensures
        value as nat == be_value(bytes@),
{
    from_be_bytes(bytes.as_slice())
}

/// Eight bytes hold exactly the values of a `u64`, two those of a `u16`,
/// one those of a `u8`.
pub proof fn lemma_pow256_of_eight()
    ensures
        pow256(0) == 1,
        pow256(1) == 0x100,
        pow256(2) == 0x1_0000,
        pow256(8) == 0x1_0000_0000_0000_0000,
{
    reveal_with_fuel(pow256, 9);
}

/// `256^n` grows with `n`.
pub proof fn lemma_pow256_monotonic(low: nat, high: nat)
    requires
        low <= high,
    ensures
        1 <= pow256(low) <= pow256(high),
    decreases high,
{
    if low < high {
        lemma_pow256_monotonic(low, (high - 1) as nat);
    } else if low > 0 {
        lemma_pow256_monotonic((low - 1) as nat, (high - 1) as nat);
    }
}

} // verus!
