//! SQLite's variable-length integer: big-endian groups of seven bits, a
//! continuation bit on every byte but the last, and a ninth byte that
//! carries eight bits.

use vstd::prelude::*;

verus! {

/// Smallest value that no longer fits in eight bytes of seven bits each.
pub const NINE_BYTE_THRESHOLD: u64 = 0x0100_0000_0000_0000;

/// `128` to the power `n`.
pub open spec fn pow128(n: nat) -> nat
    decreases n,
{
    if n == 0 {
        1
    } else {
        128 * pow128((n - 1) as nat)
    }
}

/// Value of a run of seven-bit groups, most significant first. Each byte
/// gives its low seven bits; its high bit is ignored.
pub open spec fn septets_value(groups: Seq<u8>) -> nat
    decreases groups.len(),
{
    if groups.len() == 0 {
        0
    } else {
        septets_value(groups.drop_last()) * 128 + (groups.last() % 128) as nat
    }
}

/// Index of the byte that ends the varint at the front of `bytes`, searching
/// from `from`: the first byte without a continuation bit, or index 8.
/// The result equals `bytes.len()` when the bytes run out first.
pub open spec fn terminator_index(bytes: Seq<u8>, from: nat) -> nat
    decreases 8 - from,
{
    if from >= 8 || from >= bytes.len() || bytes[from as int] < 0x80 {
        from
    } else {
        terminator_index(bytes, from + 1)
    }
}

/// Number of bytes in the varint at the front of `bytes`, where one is
/// complete.
pub open spec fn varint_len(bytes: Seq<u8>) -> Option<nat> {
    let t = terminator_index(bytes, 0);
    if t < bytes.len() {
        Some(t + 1)
    } else {
        None
    }
}

/// Value of the varint of `len` bytes at the front of `bytes`.
pub open spec fn varint_value(bytes: Seq<u8>, len: nat) -> nat {
    if len == 9 {
        septets_value(bytes.subrange(0, 8)) * 256 + bytes[8] as nat
    } else {
        septets_value(bytes.subrange(0, len as int))
    }
}

/// The varint at the front of `bytes`: its value and its length in bytes.
/// `None` when the bytes end before the varint does.
pub open spec fn decoded(bytes: Seq<u8>) -> Option<(u64, nat)> {
    match varint_len(bytes) {
        Some(len) => Some((varint_value(bytes, len) as u64, len)),
        None => None,
    }
}

/// Number of seven-bit groups needed to write `x` without a leading zero
/// group; none for zero.
pub open spec fn septet_count(x: nat) -> nat
    decreases x,
{
    if x == 0 {
        0
    } else {
        1 + septet_count(x / 128)
    }
}

/// The low `n` seven-bit groups of `x`, most significant first, each with
/// the continuation bit set.
pub open spec fn septets(x: nat, n: nat) -> Seq<u8>
    decreases n,
{
    if n == 0 {
        Seq::empty()
    } else {
        septets(x / 128, (n - 1) as nat).push((128 + x % 128) as u8)
    }
}

/// The encoding of `v`. Below `NINE_BYTE_THRESHOLD` it is the groups of
/// `v` without a leading zero group, the last one without continuation bit.
/// From there on it is nine bytes: eight groups for the high 56 bits, then
/// the low eight bits as they are.
pub open spec fn encoded(v: u64) -> Seq<u8> {
    if v < NINE_BYTE_THRESHOLD {
        septets(v as nat / 128, septet_count(v as nat / 128)).push((v % 128) as u8)
    } else {
        septets(v as nat / 256, 8).push((v % 256) as u8)
    }
}

/// What `MaxBytesExceededError` says of the input it was given.
pub const VARINT_INPUT_INVALID: &'static str =
    "Input is invalid for this varint:\nFor valid u64 values, the maximum number of bytes must be 9 or less and the last byte must not have a continuation flag (its value must be < 0x80).";

/// The failure of `decode_be`: the input holds no complete varint.
#[derive(Debug)]
pub struct MaxBytesExceededError {
    details: &'static str,
}

impl MaxBytesExceededError {
    /// The message that the error carries.
    pub closed spec fn message(self) -> &'static str {
        self.details
    }

    pub fn new() -> (e: Self)
        ensures
            e.message() == VARINT_INPUT_INVALID,
    {
        Self { details: VARINT_INPUT_INVALID }
    }

    /// The message that describes the failure.
    pub fn details(&self) -> (s: &'static str)
        ensures
            s == self.message(),
    {
        self.details
    }
}

proof fn lemma_pow128_values()
    ensures
        pow128(0) == 1,
        pow128(1) == 0x80,
        pow128(2) == 0x4000,
        pow128(3) == 0x20_0000,
        pow128(4) == 0x1000_0000,
        pow128(5) == 0x8_0000_0000,
        pow128(6) == 0x400_0000_0000,
        pow128(7) == 0x2_0000_0000_0000,
        pow128(8) == 0x100_0000_0000_0000,
{
    reveal_with_fuel(pow128, 10);
}

proof fn lemma_septets_value_push(groups: Seq<u8>, last: u8)
    ensures
        septets_value(groups.push(last)) == septets_value(groups) * 128 + (last % 128) as nat,
{
    assert(groups.push(last).drop_last() =~= groups);
}

proof fn lemma_septets_value_bound(groups: Seq<u8>)
    ensures
        septets_value(groups) < pow128(groups.len()),
    decreases groups.len(),
{
    if groups.len() > 0 {
        lemma_septets_value_bound(groups.drop_last());
    }
}

proof fn lemma_septets_shape(x: nat, n: nat)
    ensures
        septets(x, n).len() == n,
        forall|i: int| 0 <= i < n ==> #[trigger] septets(x, n)[i] >= 0x80,
    decreases n,
{
    if n > 0 {
        lemma_septets_shape(x / 128, (n - 1) as nat);
    }
}

proof fn lemma_septets_value(x: nat, n: nat)
    requires
        x < pow128(n),
    ensures
        septets_value(septets(x, n)) == x,
    decreases n,
{
    if n > 0 {
        let d = (128 + x % 128) as u8;
        lemma_septets_value(x / 128, (n - 1) as nat);
        lemma_septets_value_push(septets(x / 128, (n - 1) as nat), d);
        assert(d % 128 == x % 128);
    }
}

proof fn lemma_septet_count_bound(x: nat, n: nat)
    requires
        x < pow128(n),
    ensures
        septet_count(x) <= n,
        x < pow128(septet_count(x)),
    decreases x,
{
    if x != 0 {
        lemma_septet_count_bound(x / 128, (n - 1) as nat);
    }
}

/// A leading group of `septets(x, septet_count(x))` is never all zero.
proof fn lemma_septets_leading(x: nat)
    requires
        x != 0,
    ensures
        septets(x, septet_count(x))[0] != 0x80,
    decreases x,
{
    let n = septet_count(x);
    lemma_septets_shape(x / 128, (n - 1) as nat);
    if x / 128 != 0 {
        lemma_septets_leading(x / 128);
    } else {
        assert(n == 1) by {
            reveal_with_fuel(septet_count, 2);
        }
    }
}

proof fn lemma_terminator_index(bytes: Seq<u8>, from: nat, end: nat)
    requires
        from <= end <= 8,
        end <= bytes.len(),
        forall|i: int| from <= i < end ==> bytes[i] >= 0x80,
        end == 8 || end == bytes.len() || bytes[end as int] < 0x80,
    ensures
        terminator_index(bytes, from) == end,
    decreases end - from,
{
    if from < end {
        lemma_terminator_index(bytes, from + 1, end);
    }
}

/// The encoding is one to nine bytes long.
pub proof fn lemma_encoded_len(v: u64)
    ensures
        1 <= encoded(v).len() <= 9,
{
    lemma_pow128_values();
    if v < NINE_BYTE_THRESHOLD {
        lemma_septet_count_bound(v as nat / 128, 7);
        lemma_septets_shape(v as nat / 128, septet_count(v as nat / 128));
    } else {
        lemma_septets_shape(v as nat / 256, 8);
    }
}

/// Every byte of the encoding but the last has the continuation bit, and
/// below `NINE_BYTE_THRESHOLD` the last has none and the first group of a
/// longer encoding is not zero.
pub proof fn lemma_encoded_shape(v: u64)
    ensures
        forall|i: int| 0 <= i < encoded(v).len() - 1 ==> #[trigger] encoded(v)[i] >= 0x80,
        v < NINE_BYTE_THRESHOLD ==> encoded(v).last() < 0x80,
        v < NINE_BYTE_THRESHOLD && encoded(v).len() > 1 ==> encoded(v)[0] != 0x80,
{
    if v < NINE_BYTE_THRESHOLD {
        let x = v as nat / 128;
        lemma_septets_shape(x, septet_count(x));
        if x != 0 {
            lemma_septets_leading(x);
        }
    } else {
        lemma_septets_shape(v as nat / 256, 8);
    }
}

/// Decoding what was encoded gives the value back, and the length of the
/// encoding as the number of bytes used, whatever follows the encoding.
pub proof fn lemma_round_trip_prefix(v: u64, rest: Seq<u8>)
    ensures
        decoded(encoded(v) + rest) == Some((v, encoded(v).len())),
{
    lemma_pow128_values();
    let enc = encoded(v);
    let bytes = enc + rest;
    if v < NINE_BYTE_THRESHOLD {
        let x = v as nat / 128;
        let n = septet_count(x);
        let last = (v % 128) as u8;
        lemma_septet_count_bound(x, 7);
        lemma_septets_shape(x, n);
        lemma_septets_value(x, n);
        assert forall|i: int| 0 <= i < n implies bytes[i] >= 0x80 by {
            assert(bytes[i] == septets(x, n)[i]);
        }
        assert(bytes[n as int] == last);
        lemma_terminator_index(bytes, 0, n);
        assert(bytes.subrange(0, (n + 1) as int) =~= septets(x, n).push(last));
        lemma_septets_value_push(septets(x, n), last);
        assert(varint_value(bytes, n + 1) == x * 128 + v % 128);
    } else {
        let x = v as nat / 256;
        let last = (v % 256) as u8;
        lemma_septets_shape(x, 8);
        lemma_septets_value(x, 8);
        assert forall|i: int| 0 <= i < 8 implies bytes[i] >= 0x80 by {
            assert(bytes[i] == septets(x, 8)[i]);
        }
        assert(bytes[8] == last);
        lemma_terminator_index(bytes, 0, 8);
        assert(bytes.subrange(0, 8) =~= septets(x, 8));
        assert(varint_value(bytes, 9) == x * 256 + v % 256);
    }
}

/// Decoding the encoding of `v` gives `v` and the encoding's length.
pub proof fn lemma_round_trip(v: u64)
    ensures
        decoded(encoded(v)) == Some((v, encoded(v).len())),
        1 <= encoded(v).len() <= 9,
{
    lemma_round_trip_prefix(v, Seq::empty());
    assert(encoded(v) + Seq::<u8>::empty() =~= encoded(v));
    lemma_encoded_len(v);
}

/// No varint with the value `v` is shorter than the encoding of `v`.
pub proof fn lemma_encoded_shortest(bytes: Seq<u8>, v: u64)
    requires
        decoded(bytes) matches Some((value, _)) && value == v,
    ensures
        encoded(v).len() <= decoded(bytes)->Some_0.1,
{
    lemma_pow128_values();
    lemma_decoded_bounds(bytes);
    lemma_encoded_len(v);
    let len = decoded(bytes)->Some_0.1;
    if len < 9 {
        let groups = bytes.subrange(0, len as int);
        lemma_septets_value_bound(groups);
        lemma_pow128_monotone(len, 8);
        assert(pow128(len) == 128 * pow128((len - 1) as nat));
        lemma_septet_count_bound(v as nat / 128, (len - 1) as nat);
        lemma_septets_shape(v as nat / 128, septet_count(v as nat / 128));
    }
}

/// A varint is one to nine bytes long and lies within the bytes it was
/// read from, and its value fits in 64 bits.
pub proof fn lemma_decoded_bounds(bytes: Seq<u8>)
    ensures
        decoded(bytes) matches Some((value, len)) ==> 1 <= len <= 9 && len <= bytes.len()
            && value == varint_value(bytes, len),
{
    lemma_pow128_values();
    lemma_terminator_range(bytes, 0);
    if let Some(len) = varint_len(bytes) {
        if len == 9 {
            lemma_septets_value_bound(bytes.subrange(0, 8));
        } else {
            lemma_septets_value_bound(bytes.subrange(0, len as int));
            lemma_pow128_monotone(len, 8);
        }
    }
}

/// No varint is found exactly when fewer than nine bytes are given and each
/// of them has the continuation bit.
pub proof fn lemma_decoded_none(bytes: Seq<u8>)
    ensures
        decoded(bytes) is None <==> bytes.len() < 9 && forall|i: int|
            0 <= i < bytes.len() ==> bytes[i] >= 0x80,
{
    lemma_terminator_range(bytes, 0);
    let t = terminator_index(bytes, 0);
    if bytes.len() < 9 && (forall|i: int| 0 <= i < bytes.len() ==> bytes[i] >= 0x80) {
        lemma_terminator_index(bytes, 0, bytes.len());
    }
}

proof fn lemma_terminator_range(bytes: Seq<u8>, from: nat)
    requires
        from <= 8,
        from <= bytes.len(),
    ensures
        from <= terminator_index(bytes, from) <= 8,
        terminator_index(bytes, from) <= bytes.len(),
        forall|i: int| from <= i < terminator_index(bytes, from) ==> bytes[i] >= 0x80,
        terminator_index(bytes, from) == 8 || terminator_index(bytes, from) == bytes.len()
            || bytes[terminator_index(bytes, from) as int] < 0x80,
    decreases 8 - from,
{
    if !(from >= 8 || from >= bytes.len() || bytes[from as int] < 0x80) {
        lemma_terminator_range(bytes, from + 1);
    }
}

proof fn lemma_pow128_monotone(a: nat, b: nat)
    requires
        a <= b,
    ensures
        pow128(a) <= pow128(b),
    decreases b,
{
    if a < b {
        lemma_pow128_monotone(a, (b - 1) as nat);
    }
}

/// Reads the varint at the front of `input`: its value and the number of
/// bytes it takes.
pub fn decode_be(input: &[u8]) -> (r: Result<(u64, usize), MaxBytesExceededError>)
    ensures
        match r {
            Ok((value, used)) => decoded(input@) == Some((value, used as nat)) && 1 <= used <= 9
                && used <= input@.len(),
            Err(e) => decoded(input@) is None && e.message() == VARINT_INPUT_INVALID,
        },
{
    let mut acc: u64 = 0;
    let mut i: usize = 0;
    proof {
        lemma_pow128_values();
        lemma_decoded_bounds(input@);
    }
    while i < input.len() && i < 8
        invariant
            i <= 8,
            i <= input@.len(),
            forall|j: int| 0 <= j < i ==> input@[j] >= 0x80,
            acc == septets_value(input@.subrange(0, i as int)),
        decreases 8 - i,
    {
        let byte = input[i];
        proof {
            lemma_pow128_values();
            lemma_septets_value_bound(input@.subrange(0, i as int));
            lemma_pow128_monotone(i as nat, 7);
            assert(input@.subrange(0, i + 1).drop_last() =~= input@.subrange(0, i as int));
        }
        if byte < 0x80 {
            let value = (acc << 7) | (byte as u64);
            proof {
                assert((acc << 7) | (byte as u64) == acc * 128 + byte % 128) by (bit_vector)
                    requires
                        acc < 0x2_0000_0000_0000,
                        byte < 0x80,
                ;
                lemma_terminator_index(input@, 0, i as nat);
            }
            return Ok((value, i + 1));
        }
        let low = (byte & 0x7f) as u64;
        proof {
            assert((acc << 7) | ((byte & 0x7f) as u64) == acc * 128 + byte % 128) by (bit_vector)
                requires
                    acc < 0x2_0000_0000_0000,
            ;
        }
        acc = (acc << 7) | low;
        i += 1;
    }
    if i < input.len() {
        let byte = input[8];
        let value = (acc << 8) | (byte as u64);
        proof {
            lemma_septets_value_bound(input@.subrange(0, 8));
            assert((acc << 8) | (byte as u64) == acc * 256 + byte) by (bit_vector)
                requires
                    acc < 0x100_0000_0000_0000,
            ;
            lemma_terminator_index(input@, 0, 8);
        }
        return Ok((value, 9));
    }
    proof {
        lemma_terminator_index(input@, 0, i as nat);
    }
    Err(MaxBytesExceededError::new())
}

/// Writes the groups `septets(x, n)` into `buf`, so that they end just
/// before index 8.
fn put_septets(buf: &mut Vec<u8>, x: u64, n: usize)
    requires
        old(buf)@.len() == 9,
        n <= 8,
    ensures
        final(buf)@.len() == 9,
        final(buf)@.subrange(8 - n, 8) == septets(x as nat, n as nat),
        final(buf)@[8] == old(buf)@[8],
{
    let mut rest: u64 = x;
    let mut done: usize = 0;
    while done < n
        invariant
            done <= n <= 8,
            buf@.len() == 9,
            buf@[8] == old(buf)@[8],
            septets(x as nat, n as nat) == septets(rest as nat, (n - done) as nat) + buf@.subrange(
                8 - done,
                8,
            ),
        decreases n - done,
    {
        let group = ((rest & 0x7f) as u8) | 0x80;
        proof {
            assert((((rest & 0x7f) as u8) | 0x80) == (128 + rest % 128) as u8) by (bit_vector);
            assert(rest >> 7 == rest / 128) by (bit_vector);
        }
        let ghost before = buf@;
        buf.set(7 - done, group);
        proof {
            let left = septets(rest as nat / 128, (n - done - 1) as nat);
            assert(septets(rest as nat, (n - done) as nat) == left.push(group));
            assert(buf@.subrange(8 - done - 1, 8) =~= seq![group] + before.subrange(8 - done, 8));
            assert(left.push(group) + before.subrange(8 - done, 8) =~= left + buf@.subrange(
                8 - done - 1,
                8,
            ));
        }
        rest = rest >> 7;
        done += 1;
    }
    proof {
        assert(septets(rest as nat, 0) + buf@.subrange(8 - n, 8) =~= buf@.subrange(8 - n, 8));
    }
}

/// Counts the seven-bit groups of `x`.
fn count_septets(x: u64) -> (n: usize)
    requires
        x < 0x2_0000_0000_0000,
    ensures
        n == septet_count(x as nat),
        n <= 7,
{
    let mut rest: u64 = x;
    let mut n: usize = 0;
    proof {
        lemma_pow128_values();
    }
    while rest != 0
        invariant
            n <= 7,
            rest < pow128((7 - n) as nat),
            septet_count(x as nat) == n + septet_count(rest as nat),
        decreases rest,
    {
        proof {
            assert(rest >> 7 == rest / 128) by (bit_vector);
            assert(rest >> 7 < rest) by (bit_vector)
                requires
                    rest != 0,
            ;
            assert(n < 7) by {
                if n == 7 {
                    assert(pow128(0) == 1);
                }
            }
        }
        rest = rest >> 7;
        n += 1;
    }
    n
}

/// Encodes `value` as a varint: the bytes and their number.
pub fn encode_be(value: u64) -> (r: (usize, Vec<u8>))
    ensures
        r.1@ == encoded(value),
        r.0 == r.1@.len(),
        1 <= r.0 <= 9,
        decoded(r.1@) == Some((value, r.0 as nat)),
{
    let mut buf: Vec<u8> = vec![0u8; 9];
    let n: usize;
    if value < NINE_BYTE_THRESHOLD {
        let high = value >> 7;
        proof {
            assert(value >> 7 == value / 128) by (bit_vector);
            assert((value & 0x7f) as u8 == (value % 128) as u8) by (bit_vector);
        }
        buf.set(8, (value & 0x7f) as u8);
        n = count_septets(high);
        put_septets(&mut buf, high, n);
    } else {
        let high = value >> 8;
        proof {
            assert(value >> 8 == value / 256) by (bit_vector);
            assert((value & 0xff) as u8 == (value % 256) as u8) by (bit_vector);
        }
        buf.set(8, (value & 0xff) as u8);
        n = 8;
        put_septets(&mut buf, high, n);
    }
    let out = vstd::slice::slice_to_vec(vstd::slice::slice_subrange(buf.as_slice(), 8 - n, 9));
    proof {
        assert(out@ =~= buf@.subrange(8 - n, 8).push(buf@[8]));
        lemma_round_trip(value);
    }
    (out.len(), out)
}

} // verus!
