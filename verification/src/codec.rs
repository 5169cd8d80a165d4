//! Small byte-level helpers shared by the header codec and the container:
//! in-place range writes, zero extension, range copies, and the signed
//! 64-bit little-endian encoding used for time stamps.

use vstd::prelude::*;
use vstd::bytes::spec_u64_from_le_bytes;
use vstd::bytes::spec_u64_to_le_bytes;
use vstd::bytes::lemma_auto_spec_u64_to_from_le_bytes;
use vstd::slice::slice_subrange;
use vstd::slice::slice_to_vec;

verus! {

/// `n` zero bytes.
pub open spec fn zero_bytes(n: int) -> Seq<u8> {
    Seq::new(if n >= 0 {
        n as nat
    } else {
        0
    }, |i: int| 0u8)
}

/// The little-endian bytes of a signed 64-bit value: those of its two's
/// complement image.
pub open spec fn spec_i64_to_le_bytes(x: i64) -> Seq<u8> {
    spec_u64_to_le_bytes(x as u64)
}

/// The signed 64-bit value read from little-endian bytes.
pub open spec fn spec_i64_from_le_bytes(s: Seq<u8>) -> i64 {
    spec_u64_from_le_bytes(s) as i64
}

/// The signed 64-bit little-endian encoding round-trips.
pub proof fn lemma_i64_le_bytes_round_trip(x: i64)
    ensures
        spec_i64_to_le_bytes(x).len() == 8,
        spec_i64_from_le_bytes(spec_i64_to_le_bytes(x)) == x,
{
    lemma_auto_spec_u64_to_from_le_bytes();
    assert((x as u64) as i64 == x) by (bit_vector);
}

/// Overwrites `dest[at .. at + src.len()]` with `src`, leaving the rest as it
/// was.
pub fn write_at(dest: &mut Vec<u8>, at: usize, src: &[u8])
    requires
        at + src@.len() <= old(dest)@.len(),
    ensures
        final(dest)@.len() == old(dest)@.len(),
        final(dest)@ == old(dest)@.subrange(0, at as int) + src@ + old(dest)@.subrange(
            at + src@.len(),
            old(dest)@.len() as int,
        ),
{
    let n: usize = src.len();
    let total: usize = dest.len();
    let mut i: usize = 0;
    while i < n
        invariant
            n == src@.len(),
            total == dest@.len(),
            at + n <= dest@.len(),
            i <= n,
            dest@.len() == old(dest)@.len(),
            forall|j: int| 0 <= j < i ==> dest@[at + j] == src@[j],
            forall|j: int| 0 <= j < dest@.len() && !(at <= j < at + i) ==> dest@[j] == old(
                dest,
            )@[j],
        decreases n - i,
    {
        dest.set(at + i, src[i]);
        i += 1;
    }
    proof {
        assert(dest@ =~= old(dest)@.subrange(0, at as int) + src@ + old(dest)@.subrange(
            at + src@.len(),
            old(dest)@.len() as int,
        ));
    }
}

/// Appends zero bytes until `dest` is `new_len` long.
pub fn zero_extend(dest: &mut Vec<u8>, new_len: usize)
    requires
        old(dest)@.len() <= new_len,
    ensures
        final(dest)@ == old(dest)@ + zero_bytes(new_len - old(dest)@.len()),
        final(dest)@.len() == new_len,
{
    while dest.len() < new_len
        invariant
            old(dest)@.len() <= dest@.len() <= new_len,
            dest@ == old(dest)@ + zero_bytes(dest@.len() - old(dest)@.len()),
        decreases new_len - dest@.len(),
    {
        dest.push(0);
        proof {
            assert(dest@ =~= old(dest)@ + zero_bytes(dest@.len() - old(dest)@.len()));
        }
    }
}

/// Appends `count` zero bytes to `dest`.
pub fn push_zeros(dest: &mut Vec<u8>, count: usize)
    ensures
        final(dest)@ == old(dest)@ + zero_bytes(count as int),
{
    let mut i: usize = 0;
    while i < count
        invariant
            i <= count,
            dest@ == old(dest)@ + zero_bytes(i as int),
        decreases count - i,
    {
        dest.push(0);
        proof {
            assert(dest@ =~= old(dest)@ + zero_bytes(i + 1));
        }
        i += 1;
    }
}

/// `s` grown with zero bytes to length `n` (unchanged when already long
/// enough).
pub open spec fn extended_to(s: Seq<u8>, n: int) -> Seq<u8> {
    if s.len() >= n {
        s
    } else {
        s + zero_bytes(n - s.len())
    }
}

/// `s` with `src` written over it at position `at`.
pub open spec fn overwritten(s: Seq<u8>, at: int, src: Seq<u8>) -> Seq<u8> {
    s.take(at) + src + s.skip(at + src.len())
}

/// Compares two byte strings.
pub fn bytes_eq(a: &[u8], b: &[u8]) -> (r: bool)
    ensures
        r == (a@ == b@),
{
    let n: usize = a.len();
    if n != b.len() {
        proof {
            assert(a@.len() != b@.len());
        }
        return false;
    }
    let mut i: usize = 0;
    while i < n
        invariant
            n == a@.len(),
            n == b@.len(),
            i <= n,
            forall|j: int| 0 <= j < i ==> a@[j] == b@[j],
        decreases n - i,
    {
        if a[i] != b[i] {
            return false;
        }
        i += 1;
    }
    proof {
        assert(a@ =~= b@);
    }
    true
}

/// A copy of `src[start .. end]` as a fresh vector.
pub fn copy_range(src: &[u8], start: usize, end: usize) -> (r: Vec<u8>)
    requires
        start <= end,
        end <= src@.len(),
    ensures
        r@ == src@.subrange(start as int, end as int),
{
    slice_to_vec(slice_subrange(src, start, end))
}

} // verus!
