//! Unsigned integers in little-endian bytes.

use vstd::prelude::*;

verus! {

/// The number whose bytes are `b`, the least significant one first.
pub open spec fn le_value(b: Seq<u8>) -> nat
    decreases b.len(),
{
    if b.len() == 0 {
        0
    } else {
        b[0] as nat + 256 * le_value(b.skip(1))
    }
}

/// The `n` low bytes of `v`, the least significant one first.
pub open spec fn le_bytes(v: nat, n: nat) -> Seq<u8>
    decreases n,
{
    if n == 0 {
        Seq::empty()
    } else {
        seq![(v % 256) as u8] + le_bytes(v / 256, (n - 1) as nat)
    }
}

/// The number of values that `n` bytes can hold.
pub open spec fn byte_range(n: nat) -> nat
    decreases n,
{
    if n == 0 {
        1
    } else {
        256 * byte_range((n - 1) as nat)
    }
}

/// Bytes hold a number of their range.
pub proof fn lemma_le_value_bound(b: Seq<u8>)
    ensures
        le_value(b) < byte_range(b.len()),
    decreases b.len(),
{
    if b.len() > 0 {
        lemma_le_value_bound(b.skip(1));
    }
}

/// There are as many bytes as were asked for.
pub proof fn lemma_le_len(v: nat, n: nat)
    ensures
        le_bytes(v, n).len() == n,
    decreases n,
{
    if n > 0 {
        lemma_le_len(v / 256, (n - 1) as nat);
    }
}

/// Reading back the bytes of a number that fits yields that number.
pub proof fn lemma_le_read_back(v: nat, n: nat)
    requires
        v < byte_range(n),
    ensures
        le_bytes(v, n).len() == n,
        le_value(le_bytes(v, n)) == v,
    decreases n,
{
    if n > 0 {
        lemma_le_read_back(v / 256, (n - 1) as nat);
        let b = le_bytes(v, n);
        assert(b.skip(1) =~= le_bytes(v / 256, (n - 1) as nat));
        assert(b[0] as nat == v % 256);
    }
}

/// The numbers of values of two, four and eight bytes.
pub proof fn lemma_byte_ranges()
    ensures
        byte_range(2) == 0x1_0000,
        byte_range(4) == 0x1_0000_0000,
        byte_range(8) == 0x1_0000_0000_0000_0000,
{
    reveal_with_fuel(byte_range, 9);
}

/// More bytes hold more values.
proof fn lemma_byte_range_grows(a: nat, b: nat)
    requires
        a <= b,
    ensures
        byte_range(a) <= byte_range(b),
    decreases b,
{
    if a < b {
        lemma_byte_range_grows(a, (b - 1) as nat);
    }
}

/// Reads the number in the `n` bytes of `b` that start at `at`.
pub fn read_le(b: &[u8], at: usize, n: usize) -> (v: u64)
    requires
        n <= 8,
        at + n <= b@.len(),
    ensures
        v == le_value(b@.subrange(at as int, at + n)),
        v < byte_range(n as nat),
{
    let total: usize = b.len();
    let mut v: u64 = 0;
    let mut k: usize = n;
    assert(b@.subrange(at + k, at + n) =~= Seq::<u8>::empty());
    while k > 0
        invariant
            k <= n <= 8,
            at + n <= total,
            total == b@.len(),
            v == le_value(b@.subrange(at + k, at + n)),
        decreases k,
    {
        let ghost tail = b@.subrange(at + k, at + n);
        let ghost more = b@.subrange(at + k - 1, at + n);
        proof {
            assert(more.skip(1) =~= tail);
            lemma_le_value_bound(more);
            lemma_byte_range_grows(more.len(), 8);
            lemma_byte_ranges();
        }
        k = k - 1;
        v = b[at + k] as u64 + 256 * v;
    }
    proof {
        lemma_le_value_bound(b@.subrange(at as int, at + n));
    }
    v
}

/// Bytes in which those from `at` on are replaced.
pub open spec fn overwritten(b: Seq<u8>, at: int, new: Seq<u8>) -> Seq<u8> {
    b.take(at) + new + b.skip(at + new.len())
}

/// Writes the `n` low bytes of `v` into `out` from `at` on.
pub fn put_le(out: &mut [u8; 32], at: usize, v: u64, n: usize)
    requires
        at + n <= 32,
    ensures
        final(out)@ == overwritten(old(out)@, at as int, le_bytes(v as nat, n as nat)),
{
    let ghost all = le_bytes(v as nat, n as nat);
    let ghost before = out@;
    let mut rest: u64 = v;
    let mut k: usize = 0;
    proof {
        lemma_le_len(v as nat, n as nat);
        assert(all.skip(0) =~= all);
    }
    while k < n
        invariant
            k <= n,
            at + n <= 32,
            all.len() == n,
            before.len() == 32,
            all.skip(k as int) == le_bytes(rest as nat, (n - k) as nat),
            forall|j: int|
                0 <= j < 32 ==> #[trigger] out@[j] == (if at <= j < at + k {
                    all[j - at]
                } else {
                    before[j]
                }),
        decreases n - k,
    {
        proof {
            let tail = all.skip(k as int);
            assert(tail[0] == all[k as int]);
            assert(tail.skip(1) =~= all.skip(k + 1));
            assert(tail.skip(1) =~= le_bytes((rest / 256) as nat, (n - k - 1) as nat));
        }
        out[at + k] = (rest % 256) as u8;
        rest = rest / 256;
        k = k + 1;
    }
    assert(out@ =~= overwritten(before, at as int, all));
}

/// Appends the `n` low bytes of `v` to `out`.
pub fn push_le(out: &mut Vec<u8>, v: u64, n: usize)
    ensures
        final(out)@ == old(out)@ + le_bytes(v as nat, n as nat),
    decreases n,
{
    if n > 0 {
        out.push((v % 256) as u8);
        push_le(out, v / 256, n - 1);
        assert(out@ =~= old(out)@ + le_bytes(v as nat, n as nat));
    } else {
        assert(out@ =~= old(out)@ + le_bytes(v as nat, n as nat));
    }
}

} // verus!
