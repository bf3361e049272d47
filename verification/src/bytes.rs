//! Big-endian integers in byte buffers.

use vstd::prelude::*;
use vstd::slice::slice_subrange;

verus! {

/// `256` to the power `n`.
pub open spec fn pow256(n: nat) -> nat
    decreases n,
{
    if n == 0 {
        1
    } else {
        256 * pow256((n - 1) as nat)
    }
}

/// The unsigned number that `bytes` write, most significant byte first.
pub open spec fn be_value(bytes: Seq<u8>) -> nat
    decreases bytes.len(),
{
    if bytes.len() == 0 {
        0
    } else {
        be_value(bytes.drop_last()) * 256 + bytes.last() as nat
    }
}

/// The number that `bytes` write in two's complement, most significant byte
/// first: the sign is the high bit of the first byte.
pub open spec fn be_signed(bytes: Seq<u8>) -> int {
    if bytes.len() > 0 && bytes[0] >= 0x80 {
        be_value(bytes) - pow256(bytes.len())
    } else {
        be_value(bytes) as int
    }
}

pub proof fn lemma_pow256_values()
    ensures
        pow256(0) == 1,
        pow256(1) == 0x100,
        pow256(2) == 0x1_0000,
        pow256(3) == 0x100_0000,
        pow256(4) == 0x1_0000_0000,
        pow256(5) == 0x100_0000_0000,
        pow256(6) == 0x1_0000_0000_0000,
        pow256(7) == 0x100_0000_0000_0000,
        pow256(8) == 0x1_0000_0000_0000_0000,
{
    reveal_with_fuel(pow256, 10);
}

/// A number of `n` bytes is below `256` to the `n`, and the high bit of its
/// first byte says in which half of that range it lies.
pub proof fn lemma_be_value_bound(bytes: Seq<u8>)
    ensures
        be_value(bytes) < pow256(bytes.len()),
        bytes.len() > 0 && bytes[0] < 0x80 ==> 2 * be_value(bytes) < pow256(bytes.len()),
        bytes.len() > 0 && bytes[0] >= 0x80 ==> 2 * be_value(bytes) >= pow256(bytes.len()),
{
    lemma_be_value_first(bytes);
    if bytes.len() > 0 {
        let p = pow256((bytes.len() - 1) as nat);
        let b = bytes[0] as nat;
        if b < 0x80 {
            assert((b + 1) * p <= 128 * p) by (nonlinear_arith)
                requires
                    b + 1 <= 128,
            ;
        } else {
            assert(128 * p <= b * p) by (nonlinear_arith)
                requires
                    128 <= b,
            ;
        }
        assert((b + 1) * p <= 256 * p) by (nonlinear_arith)
            requires
                b + 1 <= 256,
        ;
    }
}

proof fn lemma_be_value_first(bytes: Seq<u8>)
    ensures
        bytes.len() == 0 ==> be_value(bytes) == 0,
        bytes.len() > 0 ==> bytes[0] as nat * pow256((bytes.len() - 1) as nat) <= be_value(bytes)
            < (bytes[0] as nat + 1) * pow256((bytes.len() - 1) as nat),
    decreases bytes.len(),
{
    if bytes.len() > 0 {
        let front = bytes.drop_last();
        lemma_be_value_first(front);
        if front.len() > 0 {
            let p = pow256((front.len() - 1) as nat);
            assert(pow256(front.len()) == 256 * p);
            assert(bytes[0] == front[0]);
            assert(bytes[0] as nat * (256 * p) == (bytes[0] as nat * p) * 256) by (nonlinear_arith);
            assert((bytes[0] as nat + 1) * (256 * p) == ((bytes[0] as nat + 1) * p) * 256)
                by (nonlinear_arith);
        } else {
            assert(pow256(0) == 1);
            assert(be_value(bytes) == bytes[0] as nat);
            assert(bytes[0] as nat * 1 == bytes[0] as nat);
            assert((bytes[0] as nat + 1) * 1 == bytes[0] as nat + 1);
        }
    }
}

/// The big-endian number in `buf`, which is at most eight bytes long.
pub fn be_u64(buf: &[u8]) -> (r: u64)
    requires
        buf@.len() <= 8,
    ensures
        r == be_value(buf@),
{
    let mut acc: u64 = 0;
    let mut i: usize = 0;
    while i < buf.len()
        invariant
            i <= buf@.len() <= 8,
            acc == be_value(buf@.subrange(0, i as int)),
        decreases buf@.len() - i,
    {
        let byte = buf[i];
        proof {
            lemma_pow256_values();
            lemma_be_value_bound(buf@.subrange(0, i as int));
            lemma_pow256_monotone(i as nat, 7);
            assert(buf@.subrange(0, i + 1).drop_last() =~= buf@.subrange(0, i as int));
            assert((acc << 8) | (byte as u64) == acc * 256 + byte) by (bit_vector)
                requires
                    acc < 0x100_0000_0000_0000,
            ;
        }
        acc = (acc << 8) | (byte as u64);
        i += 1;
    }
    proof {
        assert(buf@.subrange(0, i as int) =~= buf@);
    }
    acc
}

/// The big-endian 16-bit number at `at` in `buf`.
pub fn be_u16_at(buf: &[u8], at: usize) -> (r: u16)
    requires
        at + 2 <= buf@.len(),
    ensures
        r == be_value(buf@.subrange(at as int, at + 2)),
{
    proof {
        vstd::slice::axiom_spec_len(buf);
    }
    let v = be_u64(slice_subrange(buf, at, at + 2));
    proof {
        lemma_pow256_values();
        lemma_be_value_bound(buf@.subrange(at as int, at + 2));
    }
    v as u16
}

/// The big-endian 32-bit number at `at` in `buf`.
pub fn be_u32_at(buf: &[u8], at: usize) -> (r: u32)
    requires
        at + 4 <= buf@.len(),
    ensures
        r == be_value(buf@.subrange(at as int, at + 4)),
{
    proof {
        vstd::slice::axiom_spec_len(buf);
    }
    let v = be_u64(slice_subrange(buf, at, at + 4));
    proof {
        lemma_pow256_values();
        lemma_be_value_bound(buf@.subrange(at as int, at + 4));
    }
    v as u32
}

/// The two's-complement big-endian number in `buf`, which is one to eight
/// bytes long.
pub fn be_i64(buf: &[u8]) -> (r: i64)
    requires
        1 <= buf@.len() <= 8,
    ensures
        r == be_signed(buf@),
{
    let raw = be_u64(buf);
    let len = buf.len();
    proof {
        lemma_pow256_values();
        lemma_be_value_bound(buf@);
    }
    if buf[0] < 0x80 {
        raw as i64
    } else if len == 8 {
        ((raw - 0x8000_0000_0000_0000u64) as i64) + i64::MIN
    } else {
        let span: i64 = if len == 1 {
            0x100
        } else if len == 2 {
            0x1_0000
        } else if len == 3 {
            0x100_0000
        } else if len == 4 {
            0x1_0000_0000
        } else if len == 5 {
            0x100_0000_0000
        } else if len == 6 {
            0x1_0000_0000_0000
        } else {
            0x100_0000_0000_0000
        };
        (raw as i64) - span
    }
}

proof fn lemma_pow256_monotone(a: nat, b: nat)
    requires
        a <= b,
    ensures
        pow256(a) <= pow256(b),
    decreases b,
{
    if a < b {
        lemma_pow256_monotone(a, (b - 1) as nat);
    }
}

} // verus!
