//! Integers as bytes.
use vstd::prelude::*;

verus! {

/// The value of bytes, least significant first.
pub open spec fn le_value(s: Seq<u8>) -> nat
    decreases s.len(),
{
    if s.len() == 0 {
        0
    } else {
        s[0] as nat + 256 * le_value(s.skip(1))
    }
}

/// The lowest `len` bytes of `n`, least significant first.
pub open spec fn le_bytes(n: nat, len: nat) -> Seq<u8>
    decreases len,
{
    if len == 0 {
        Seq::empty()
    } else {
        seq![(n % 256) as u8] + le_bytes(n / 256, (len - 1) as nat)
    }
}

/// 256 to the power of `len`.
pub open spec fn pow256(len: nat) -> nat
    decreases len,
{
    if len == 0 {
        1
    } else {
        256 * pow256((len - 1) as nat)
    }
}

pub proof fn lemma_le_bytes_len(n: nat, len: nat)
    ensures
        le_bytes(n, len).len() == len,
    decreases len,
{
    if len > 0 {
        lemma_le_bytes_len(n / 256, (len - 1) as nat);
    }
}

/// Reading the bytes of a number that fits gives back the number.
pub proof fn law_le_round_trip(n: nat, len: nat)
    requires
        n < pow256(len),
    ensures
        le_bytes(n, len).len() == len,
        le_value(le_bytes(n, len)) == n,
    decreases len,
{
    lemma_le_bytes_len(n, len);
    if len > 0 {
        law_le_round_trip(n / 256, (len - 1) as nat);
        assert(le_bytes(n, len).skip(1) =~= le_bytes(n / 256, (len - 1) as nat));
    }
}

pub proof fn lemma_pow256()
    ensures
        pow256(1) == 0x100,
        pow256(2) == 0x1_0000,
        pow256(4) == 0x1_0000_0000,
        pow256(8) == 0x1_0000_0000_0000_0000,
{
    reveal_with_fuel(pow256, 9);
}

/// Appends the lowest `len` bytes of `n`, least significant first.
pub fn push_le(out: &mut Vec<u8>, n: u64, len: usize)
    ensures
        final(out)@ == old(out)@ + le_bytes(n as nat, len as nat),
{
    let mut rest: u64 = n;
    let mut i: usize = 0;
    while i < len
        invariant
            i <= len,
            out@ + le_bytes(rest as nat, (len - i) as nat) == old(out)@ + le_bytes(
                n as nat,
                len as nat,
            ),
        decreases len - i,
    {
        let ghost before = out@;
        let ghost tail = le_bytes((rest / 256) as nat, (len - i - 1) as nat);
        out.push((rest % 256) as u8);
        assert(before + (seq![(rest % 256) as u8] + tail) =~= out@ + tail);
        rest = rest / 256;
        i += 1;
    }
    assert(out@ + Seq::<u8>::empty() =~= out@);
}

/// Reads `len` bytes from `at`, least significant first.
pub fn read_le(bytes: &[u8], at: usize, len: usize) -> (n: u64)
    requires
        len <= 8,
        at + len <= bytes.len(),
    ensures
        n == le_value(bytes@.subrange(at as int, at + len)),
        n < pow256(len as nat),
    decreases len,
{
    if len == 0 {
        assert(bytes@.subrange(at as int, at as int).len() == 0);
        0
    } else {
        let high: u64 = read_le(bytes, at + 1, len - 1);
        proof {
            lemma_pow256_monotone((len - 1) as nat);
            assert(bytes@.subrange(at as int, at + len).skip(1) =~= bytes@.subrange(
                at + 1,
                at + len,
            ));
        }
        bytes[at] as u64 + 256 * high
    }
}

proof fn lemma_pow256_monotone(len: nat)
    requires
        len <= 7,
    ensures
        pow256(len) <= 0x100_0000_0000_0000,
{
    reveal_with_fuel(pow256, 8);
}

// ---------------------------------------------------------------------------
// Most significant byte first
// ---------------------------------------------------------------------------

/// The value of bytes, most significant first.
pub open spec fn be_value(s: Seq<u8>) -> nat
    decreases s.len(),
{
    if s.len() == 0 {
        0
    } else {
        256 * be_value(s.drop_last()) + s.last() as nat
    }
}

/// The lowest `len` bytes of `n`, most significant first.
pub open spec fn be_bytes(n: nat, len: nat) -> Seq<u8>
    decreases len,
{
    if len == 0 {
        Seq::empty()
    } else {
        be_bytes(n / 256, (len - 1) as nat).push((n % 256) as u8)
    }
}

pub proof fn lemma_be_bytes_len(n: nat, len: nat)
    ensures
        be_bytes(n, len).len() == len,
    decreases len,
{
    if len > 0 {
        lemma_be_bytes_len(n / 256, (len - 1) as nat);
    }
}

/// Reading the bytes of a number that fits gives back the number.
pub proof fn law_be_round_trip(n: nat, len: nat)
    requires
        n < pow256(len),
    ensures
        be_bytes(n, len).len() == len,
        be_value(be_bytes(n, len)) == n,
    decreases len,
{
    lemma_be_bytes_len(n, len);
    if len > 0 {
        law_be_round_trip(n / 256, (len - 1) as nat);
        assert(be_bytes(n, len).drop_last() =~= be_bytes(n / 256, (len - 1) as nat));
    }
}

pub proof fn lemma_be_value_bound(s: Seq<u8>)
    ensures
        be_value(s) < pow256(s.len()),
    decreases s.len(),
{
    if s.len() > 0 {
        lemma_be_value_bound(s.drop_last());
    }
}

/// Appends the lowest `len` bytes of `n`, most significant first.
pub fn push_be(out: &mut Vec<u8>, n: u64, len: usize)
    ensures
        final(out)@ == old(out)@ + be_bytes(n as nat, len as nat),
    decreases len,
{
    if len > 0 {
        push_be(out, n / 256, len - 1);
        out.push((n % 256) as u8);
        assert(out@ =~= old(out)@ + be_bytes(n as nat, len as nat));
    } else {
        assert(old(out)@ + Seq::<u8>::empty() =~= old(out)@);
    }
}

/// Reads `len` bytes from `at`, most significant first.
pub fn read_be(bytes: &[u8], at: usize, len: usize) -> (n: u128)
    requires
        len <= 16,
        at + len <= bytes.len(),
    ensures
        n == be_value(bytes@.subrange(at as int, at + len)),
        n < pow256(len as nat),
    decreases len,
{
    if len == 0 {
        assert(bytes@.subrange(at as int, at as int).len() == 0);
        0
    } else {
        let high: u128 = read_be(bytes, at, len - 1);
        proof {
            lemma_pow256_wide((len - 1) as nat);
            assert(bytes@.subrange(at as int, at + len).drop_last() =~= bytes@.subrange(
                at as int,
                at + len - 1,
            ));
        }
        256 * high + bytes[at + len - 1] as u128
    }
}

proof fn lemma_pow256_wide(len: nat)
    requires
        len <= 15,
    ensures
        pow256(len) <= 0x1_00_0000_0000_0000_0000_0000_0000_0000,
{
    reveal_with_fuel(pow256, 16);
}

// ---------------------------------------------------------------------------
// The order of the host
// ---------------------------------------------------------------------------

/// The order in which the host stores the bytes of a number.
#[derive(Clone, Copy, Debug, PartialEq, Eq, Structural)]
pub enum ByteOrder {
    Little,
    Big,
}

/// The number that bytes denote on a host.
pub open spec fn host_value(order: ByteOrder, s: Seq<u8>) -> nat {
    match order {
        ByteOrder::Little => le_value(s),
        ByteOrder::Big => be_value(s),
    }
}

/// The bytes that a host stores for a number.
pub open spec fn host_bytes(order: ByteOrder, n: nat, len: nat) -> Seq<u8> {
    match order {
        ByteOrder::Little => le_bytes(n, len),
        ByteOrder::Big => be_bytes(n, len),
    }
}

/// A host reads back the number that it stored.
pub proof fn law_host_round_trip(order: ByteOrder, n: nat, len: nat)
    requires
        n < pow256(len),
    ensures
        host_bytes(order, n, len).len() == len,
        host_value(order, host_bytes(order, n, len)) == n,
{
    law_le_round_trip(n, len);
    law_be_round_trip(n, len);
}

/// Appends a number as the host stores it.
pub fn push_host(order: ByteOrder, out: &mut Vec<u8>, n: u64, len: usize)
    ensures
        final(out)@ == old(out)@ + host_bytes(order, n as nat, len as nat),
{
    match order {
        ByteOrder::Little => push_le(out, n, len),
        ByteOrder::Big => push_be(out, n, len),
    }
}

/// Reads a number of at most eight bytes as the host stores it.
pub fn read_host(order: ByteOrder, bytes: &[u8], at: usize, len: usize) -> (n: u64)
    requires
        len <= 8,
        at + len <= bytes.len(),
    ensures
        n == host_value(order, bytes@.subrange(at as int, at + len)),
        n < pow256(len as nat),
{
    match order {
        ByteOrder::Little => read_le(bytes, at, len),
        ByteOrder::Big => {
            let n: u128 = read_be(bytes, at, len);
            proof {
                lemma_pow256();
                lemma_pow256_upto_8(len as nat);
            }
            n as u64
        },
    }
}

proof fn lemma_pow256_upto_8(len: nat)
    requires
        len <= 8,
    ensures
        pow256(len) <= 0x1_0000_0000_0000_0000,
{
    reveal_with_fuel(pow256, 9);
}

/// A signed number of 32 bits from its unsigned form.
pub open spec fn signed32(n: nat) -> int {
    if n < 0x8000_0000 {
        n as int
    } else {
        n - 0x1_0000_0000
    }
}

/// Reads a signed number of four bytes as the host stores it.
pub fn read_i32(order: ByteOrder, bytes: &[u8], at: usize) -> (n: i32)
    requires
        at + 4 <= bytes.len(),
    ensures
        n == signed32(host_value(order, bytes@.subrange(at as int, at + 4))),
{
    let raw: u64 = read_host(order, bytes, at, 4);
    proof {
        lemma_pow256();
    }
    if raw < 0x8000_0000 {
        raw as i32
    } else {
        (raw as i64 - 0x1_0000_0000) as i32
    }
}

/// The smallest multiple of four that is not below `n`.
pub open spec fn align4(n: int) -> int {
    (n + 3) / 4 * 4
}

/// Rounds up to a multiple of four.
pub fn align(len: usize) -> (aligned: usize)
    requires
        len <= usize::MAX - 3,
    ensures
        aligned == align4(len as int),
        len <= aligned < len + 4,
{
    (len + 3) / 4 * 4
}

/// A copy of the bytes from `start` up to `end`.
pub fn copy_bytes(bytes: &[u8], start: usize, end: usize) -> (out: Vec<u8>)
    requires
        start <= end <= bytes.len(),
    ensures
        out@ == bytes@.subrange(start as int, end as int),
{
    let mut out: Vec<u8> = Vec::new();
    let mut i: usize = start;
    while i < end
        invariant
            start <= i <= end <= bytes.len(),
            out@ == bytes@.subrange(start as int, i as int),
        decreases end - i,
    {
        out.push(bytes[i]);
        i += 1;
        assert(out@ =~= bytes@.subrange(start as int, i as int));
    }
    out
}

/// Appends bytes.
pub fn push_bytes(out: &mut Vec<u8>, bytes: &[u8])
    ensures
        final(out)@ == old(out)@ + bytes@,
{
    let ghost start = out@;
    let mut i: usize = 0;
    assert(start + bytes@.take(0) =~= start);
    while i < bytes.len()
        invariant
            i <= bytes.len(),
            out@ == start + bytes@.take(i as int),
        decreases bytes.len() - i,
    {
        out.push(bytes[i]);
        i += 1;
        assert(out@ =~= start + bytes@.take(i as int));
    }
    assert(bytes@.take(bytes@.len() as int) =~= bytes@);
}

// ---------------------------------------------------------------------------
// Laws
// ---------------------------------------------------------------------------

/// The byte at a place counts 256 times as much as the one before it where the least
/// significant byte comes first.
pub proof fn law_low_byte_comes_first(n: nat, len: nat, i: nat)
    requires
        i < len,
    ensures
        le_bytes(n, len).len() == len,
        le_bytes(n, len)[i as int] == (n / pow256(i)) % 256,
    decreases len,
{
    lemma_le_bytes_len(n, len);
    if i == 0 {
        assert(pow256(0) == 1);
        assert(n / 1 == n) by (nonlinear_arith);
    } else {
        let rest = (len - 1) as nat;
        let below = (i - 1) as nat;
        law_low_byte_comes_first(n / 256, rest, below);
        lemma_le_bytes_len(n / 256, rest);
        lemma_pow256_positive(below);
        vstd::arithmetic::div_mod::lemma_div_denominator(n as int, 256, pow256(below) as int);
    }
}

/// The byte at a place counts 256 times as much as the one behind it where the most
/// significant byte comes first.
pub proof fn law_low_byte_comes_last(n: nat, len: nat, i: nat)
    requires
        i < len,
    ensures
        be_bytes(n, len).len() == len,
        be_bytes(n, len)[len - 1 - i] == (n / pow256(i)) % 256,
    decreases len,
{
    lemma_be_bytes_len(n, len);
    if i == 0 {
        assert(pow256(0) == 1);
        assert(n / 1 == n) by (nonlinear_arith);
    } else {
        let rest = (len - 1) as nat;
        let below = (i - 1) as nat;
        law_low_byte_comes_last(n / 256, rest, below);
        lemma_be_bytes_len(n / 256, rest);
        lemma_pow256_positive(below);
        vstd::arithmetic::div_mod::lemma_div_denominator(n as int, 256, pow256(below) as int);
    }
}

proof fn lemma_pow256_positive(len: nat)
    ensures
        pow256(len) > 0,
    decreases len,
{
    if len > 0 {
        lemma_pow256_positive((len - 1) as nat);
    }
}

/// Sixteen bits, most significant byte first and last.
pub proof fn law_bytes_of_two(high: u8, low: u8)
    ensures
        be_value(seq![high, low]) == 256 * high + low,
        le_value(seq![low, high]) == 256 * high + low,
        host_value(ByteOrder::Big, seq![high, low]) == 256 * high + low,
        host_value(ByteOrder::Little, seq![low, high]) == 256 * high + low,
{
    let s = seq![high, low];
    let t = seq![low, high];
    assert(s.drop_last() =~= seq![high]);
    assert(seq![high].drop_last() =~= Seq::<u8>::empty());
    assert(t.skip(1) =~= seq![high]);
    assert(seq![high].skip(1) =~= Seq::<u8>::empty());
    reveal_with_fuel(be_value, 3);
    reveal_with_fuel(le_value, 3);
}

} // verus!
