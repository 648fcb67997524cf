//! Little-endian integers as they appear in canonical binary payloads.

use vstd::prelude::*;

verus! {

/// 256 to the power `n`.
pub open spec fn pow256(n: nat) -> nat
    decreases n,
{
    if n == 0 {
        1
    } else {
        256 * pow256((n - 1) as nat)
    }
}

/// The number that `s` holds in little-endian order: the first byte is the
/// least significant one.
pub open spec fn le_value(s: Seq<u8>) -> nat
    decreases s.len(),
{
    if s.len() == 0 {
        0
    } else {
        s[0] as nat + 256 * le_value(s.skip(1))
    }
}

/// The `n` bytes that hold `v` in little-endian order (`v` modulo `256^n`).
pub open spec fn le_bytes(v: nat, n: nat) -> Seq<u8>
    decreases n,
{
    if n == 0 {
        Seq::empty()
    } else {
        seq![(v % 256) as u8] + le_bytes(v / 256, (n - 1) as nat)
    }
}

/// `pow256` grows with its argument.
pub proof fn lemma_pow256_monotonic(a: nat, b: nat)
    requires
        a <= b,
    ensures
        0 < pow256(a) <= pow256(b),
    decreases b,
{
    if b == 0 {
    } else if a == b {
        lemma_pow256_monotonic((a - 1) as nat, (b - 1) as nat);
    } else {
        lemma_pow256_monotonic(a, (b - 1) as nat);
    }
}

/// The values of `pow256` at the widths of the machine integers.
pub proof fn lemma_pow256_widths()
    ensures
        pow256(4) == 0x1_0000_0000,
        pow256(8) == 0x1_0000_0000_0000_0000,
        pow256(15) == 0x1_0000_0000_0000_0000_0000_0000_0000_00,
        pow256(16) == 0x1_0000_0000_0000_0000_0000_0000_0000_0000,
{
    reveal_with_fuel(pow256, 17);
}

/// A little-endian number of `n` bytes is below `256^n`.
pub proof fn lemma_le_value_bound(s: Seq<u8>)
    ensures
        le_value(s) < pow256(s.len()),
    decreases s.len(),
{
    if s.len() > 0 {
        lemma_le_value_bound(s.skip(1));
    }
}

/// `le_bytes` yields exactly `n` bytes.
pub proof fn lemma_le_bytes_len(v: nat, n: nat)
    ensures
        le_bytes(v, n).len() == n,
    decreases n,
{
    if n > 0 {
        lemma_le_bytes_len(v / 256, (n - 1) as nat);
    }
}

/// Reading back what `le_bytes` wrote gives the number again, as long as it
/// fits in `n` bytes.
pub proof fn lemma_le_round_trip(v: nat, n: nat)
    requires
        v < pow256(n),
    ensures
        le_value(le_bytes(v, n)) == v,
    decreases n,
{
    if n > 0 {
        let rest = le_bytes(v / 256, (n - 1) as nat);
        let all = le_bytes(v, n);
        lemma_le_round_trip(v / 256, (n - 1) as nat);
        assert(all.skip(1) =~= rest);
        assert(all[0] == (v % 256) as u8);
    }
}

/// Writing out what was read gives the bytes again.
pub proof fn lemma_le_bytes_of_value(s: Seq<u8>)
    ensures
        le_bytes(le_value(s), s.len()) == s,
    decreases s.len(),
{
    if s.len() > 0 {
        lemma_le_bytes_of_value(s.skip(1));
        let v = le_value(s);
        assert(v % 256 == s[0] as nat);
        assert(v / 256 == le_value(s.skip(1)));
        assert(le_bytes(v, s.len()) =~= s);
    } else {
        assert(le_bytes(le_value(s), s.len()) =~= s);
    }
}

/// Reads the `width` bytes of `bytes` that start at `start` as one
/// little-endian number.
pub fn read_le(bytes: &[u8], start: usize, width: usize) -> (v: u128)
    requires
        width <= 16,
        start + width <= bytes.len(),
    ensures
        v == le_value(bytes@.subrange(start as int, start + width)),
{
    let end: usize = start + width;
    let mut acc: u128 = 0;
    let mut taken: usize = 0;
    while taken < width
        invariant
            taken <= width <= 16,
            end == start + width,
            end <= bytes.len(),
            acc == le_value(bytes@.subrange(end - taken, end as int)),
        decreases width - taken,
    {
        let byte: u8 = bytes[end - taken - 1];
        proof {
            let tail = bytes@.subrange(end - taken, end as int);
            let next = bytes@.subrange(end - taken - 1, end as int);
            lemma_le_value_bound(tail);
            lemma_pow256_monotonic(taken as nat, 15);
            lemma_pow256_widths();
            assert(next.skip(1) =~= tail);
            assert(next[0] == byte);
        }
        acc = acc * 256 + byte as u128;
        taken = taken + 1;
    }
    acc
}

/// The signed 32-bit number that four little-endian bytes hold in two's
/// complement.
pub open spec fn le_i32(s: Seq<u8>) -> int {
    if le_value(s) < 0x8000_0000 {
        le_value(s) as int
    } else {
        le_value(s) - 0x1_0000_0000
    }
}

/// The four little-endian bytes that hold `v` in two's complement.
pub open spec fn le_bytes_i32(v: int) -> Seq<u8> {
    if v >= 0 {
        le_bytes(v as nat, 4)
    } else {
        le_bytes((v + 0x1_0000_0000) as nat, 4)
    }
}

/// Reading back the bytes of a signed 32-bit number gives the number again.
pub proof fn lemma_le_i32_round_trip(v: int)
    requires
        -0x8000_0000 <= v < 0x8000_0000,
    ensures
        le_bytes_i32(v).len() == 4,
        le_i32(le_bytes_i32(v)) == v,
{
    lemma_pow256_widths();
    if v >= 0 {
        lemma_le_bytes_len(v as nat, 4);
        lemma_le_round_trip(v as nat, 4);
    } else {
        lemma_le_bytes_len((v + 0x1_0000_0000) as nat, 4);
        lemma_le_round_trip((v + 0x1_0000_0000) as nat, 4);
    }
}

/// Reads the unsigned 64-bit number that starts at `start`.
pub fn read_u64(bytes: &[u8], start: usize) -> (v: u64)
    requires
        start + 8 <= bytes.len(),
    ensures
        v == le_value(bytes@.subrange(start as int, start + 8)),
{
    let wide: u128 = read_le(bytes, start, 8);
    proof {
        lemma_le_value_bound(bytes@.subrange(start as int, start + 8));
        lemma_pow256_widths();
    }
    wide as u64
}

/// Reads the unsigned 128-bit number that starts at `start`.
pub fn read_u128(bytes: &[u8], start: usize) -> (v: u128)
    requires
        start + 16 <= bytes.len(),
    ensures
        v == le_value(bytes@.subrange(start as int, start + 16)),
{
    read_le(bytes, start, 16)
}

/// Reads the signed 32-bit number that starts at `start`.
pub fn read_i32(bytes: &[u8], start: usize) -> (v: i32)
    requires
        start + 4 <= bytes.len(),
    ensures
        v == le_i32(bytes@.subrange(start as int, start + 4)),
{
    let wide: u128 = read_le(bytes, start, 4);
    proof {
        lemma_le_value_bound(bytes@.subrange(start as int, start + 4));
        lemma_pow256_widths();
    }
    if wide < 0x8000_0000 {
        wide as i32
    } else {
        (wide as i64 - 0x1_0000_0000) as i32
    }
}

/// Writing out the signed 32-bit number that four bytes hold gives the bytes
/// again.
pub proof fn lemma_le_i32_bytes_of_value(s: Seq<u8>)
    requires
        s.len() == 4,
    ensures
        -0x8000_0000 <= le_i32(s) < 0x8000_0000,
        le_bytes_i32(le_i32(s)) == s,
{
    lemma_pow256_widths();
    lemma_le_value_bound(s);
    lemma_le_bytes_of_value(s);
}

} // verus!
