//! Byte-string helpers shared by the framing and the handshake code.
use vstd::prelude::*;
use vstd::slice::slice_to_vec;
use zeroize::Zeroize;

verus! {

/// A run of `n` zero bytes.
pub open spec fn zeros(n: nat) -> Seq<u8> {
    Seq::new(n, |i: int| 0u8)
}

/// `dst` with the bytes from `at` on overwritten by `src`.
pub open spec fn splice(dst: Seq<u8>, at: int, src: Seq<u8>) -> Seq<u8> {
    dst.subrange(0, at) + src + dst.subrange(at + src.len(), dst.len() as int)
}

/// Big-endian encoding of a 64-bit integer.
pub open spec fn be_bytes(n: u64) -> Seq<u8> {
    seq![
        (n >> 56) as u8,
        (n >> 48) as u8,
        (n >> 40) as u8,
        (n >> 32) as u8,
        (n >> 24) as u8,
        (n >> 16) as u8,
        (n >> 8) as u8,
        n as u8,
    ]
}

/// The 64-bit integer that eight big-endian bytes stand for.
pub open spec fn be_value(s: Seq<u8>) -> u64 {
    ((s[0] as u64) << 56) | ((s[1] as u64) << 48) | ((s[2] as u64) << 40) | ((s[3] as u64) << 32)
        | ((s[4] as u64) << 24) | ((s[5] as u64) << 16) | ((s[6] as u64) << 8) | (s[7] as u64)
}

/// Decoding undoes encoding.
pub proof fn lemma_be_roundtrip(n: u64)
    ensures
        be_bytes(n).len() == 8,
        be_value(be_bytes(n)) == n,
{
    assert((((n >> 56) as u8) as u64) << 56 | (((n >> 48) as u8) as u64) << 48 | (((n
        >> 40) as u8) as u64) << 40 | (((n >> 32) as u8) as u64) << 32 | (((n >> 24) as u8) as u64)
        << 24 | (((n >> 16) as u8) as u64) << 16 | (((n >> 8) as u8) as u64) << 8 | ((n as u8) as u64)
        == n) by (bit_vector);
}

/// Encoding undoes decoding.
pub proof fn lemma_be_bytes_of_value(s: Seq<u8>)
    requires
        s.len() == 8,
    ensures
        be_bytes(be_value(s)) == s,
{
    let (a, b, c, d) = (s[0], s[1], s[2], s[3]);
    let (e, f, g, h) = (s[4], s[5], s[6], s[7]);
    let n = ((a as u64) << 56) | ((b as u64) << 48) | ((c as u64) << 40) | ((d as u64) << 32) | ((
    e as u64) << 24) | ((f as u64) << 16) | ((g as u64) << 8) | (h as u64);
    assert((n >> 56) as u8 == a && (n >> 48) as u8 == b && (n >> 40) as u8 == c && (n >> 32) as u8
        == d && (n >> 24) as u8 == e && (n >> 16) as u8 == f && (n >> 8) as u8 == g && n as u8 == h)
        by (bit_vector)
        requires
            n == ((a as u64) << 56) | ((b as u64) << 48) | ((c as u64) << 40) | ((d as u64) << 32)
                | ((e as u64) << 24) | ((f as u64) << 16) | ((g as u64) << 8) | (h as u64),
    ;
    assert(be_bytes(be_value(s)) =~= s);
}

/// Two arrays with the same elements are the same array.
pub proof fn lemma_array_ext<const N: usize>(a: [u8; N], b: [u8; N])
    ensures
        a@ == b@ <==> a == b,
{
    if a@ == b@ {
        assert forall|i: int| 0 <= i < N implies a[i] == b[i] by {
            assert(a@[i] == b@[i]);
        }
        assert(a =~= b);
    }
}

/// Big-endian encoding.
pub fn u64_to_be(n: u64) -> (r: [u8; 8])
    ensures
        r@ == be_bytes(n),
{
    let r: [u8; 8] = [
        (n >> 56) as u8,
        (n >> 48) as u8,
        (n >> 40) as u8,
        (n >> 32) as u8,
        (n >> 24) as u8,
        (n >> 16) as u8,
        (n >> 8) as u8,
        n as u8,
    ];
    assert(r@ =~= be_bytes(n));
    r
}

/// Big-endian decoding of the eight bytes of `s` that start at `at`.
pub fn u64_from_be(s: &[u8], at: usize) -> (r: u64)
    requires
        at + 8 <= s@.len(),
    ensures
        r == be_value(s@.subrange(at as int, at + 8)),
{
    let ghost w = s@.subrange(at as int, at + 8);
    assert(forall|i: int| 0 <= i < 8 ==> w[i] == s@[at + i]);
    ((s[at] as u64) << 56) | ((s[at + 1] as u64) << 48) | ((s[at + 2] as u64) << 40) | ((s[at
        + 3] as u64) << 32) | ((s[at + 4] as u64) << 24) | ((s[at + 5] as u64) << 16) | ((s[at
        + 6] as u64) << 8) | (s[at + 7] as u64)
}

/// Equality of two byte strings.
pub fn bytes_eq(a: &[u8], b: &[u8]) -> (r: bool)
    ensures
        r == (a@ == b@),
{
    if a.len() != b.len() {
        return false;
    }
    let mut i: usize = 0;
    while i < a.len()
        invariant
            i <= a@.len(),
            a@.len() == b@.len(),
            forall|j: int| 0 <= j < i ==> a@[j] == b@[j],
        decreases a@.len() - i,
    {
        if a[i] != b[i] {
            return false;
        }
        i += 1;
    }
    assert(a@ =~= b@);
    true
}

/// Equality of two byte arrays.
pub fn arrays_eq<const N: usize>(a: &[u8; N], b: &[u8; N]) -> (r: bool)
    ensures
        r == (*a == *b),
{
    proof {
        lemma_array_ext(*a, *b);
    }
    bytes_eq(a, b)
}

/// Writes `src` into `dst` from index `at` on.
pub fn write_at<const N: usize>(dst: &mut [u8; N], at: usize, src: &[u8])
    requires
        at + src@.len() <= N,
    ensures
        final(dst)@ == splice(old(dst)@, at as int, src@),
{
    let ghost start = dst@;
    let mut i: usize = 0;
    while i < src.len()
        invariant
            i <= src@.len(),
            at + src@.len() <= N,
            start.len() == N,
            forall|j: int|
                0 <= j < N ==> #[trigger] dst@[j] == if at <= j < at + i {
                    src@[j - at]
                } else {
                    start[j]
                },
        decreases src@.len() - i,
    {
        dst[at + i] = src[i];
        i += 1;
    }
    assert(dst@ =~= splice(start, at as int, src@));
}

/// The `N` bytes of `s` that start at `at`.
pub fn take_array<const N: usize>(s: &[u8], at: usize) -> (r: [u8; N])
    requires
        at + N <= s@.len(),
    ensures
        r@ == s@.subrange(at as int, at + N),
{
    let mut r = [0u8; N];
    let mut i: usize = 0;
    while i < N
        invariant
            i <= N,
            at + N <= s@.len(),
            forall|j: int| 0 <= j < i ==> r@[j] == s@[at + j],
        decreases N - i,
    {
        assert(at + i < s.len());
        r[i] = s[at + i];
        i += 1;
    }
    assert(r@ =~= s@.subrange(at as int, at + N));
    r
}

/// Appends `s` to `v`.
pub fn append_bytes(v: &mut Vec<u8>, s: &[u8])
    ensures
        final(v)@ == old(v)@ + s@,
{
    let mut tail = slice_to_vec(s);
    v.append(&mut tail);
}

/// Overwrites a byte string with zeros.
///
/// Calls `zeroize::Zeroize::zeroize` on the slice, which sets every element to
/// its default value with stores the compiler may not elide. Claimed: the
/// length is unchanged and every byte is zero afterwards.
#[verifier::external_body]
pub(crate) fn wipe(b: &mut [u8])
    ensures
        final(b)@ == zeros(old(b)@.len()),
    opens_invariants none
    no_unwind
{
    b.zeroize();
}

/// Overwrites a byte vector with zeros and empties it.
///
/// Calls `zeroize::Zeroize::zeroize` on the vector, which overwrites the
/// elements and the spare capacity, and then sets the length to 0. Claimed: the
/// vector is empty afterwards. That the bytes left behind are zero cannot be
/// said of its contents.
#[verifier::external_body]
pub(crate) fn wipe_vec(v: &mut Vec<u8>)
    ensures
        final(v)@ == Seq::<u8>::empty(),
    opens_invariants none
    no_unwind
{
    v.zeroize();
}

/// A run of zeros has its length and holds nothing but zeros.
pub proof fn zeros_are_zero(n: nat)
    ensures
        zeros(n).len() == n,
        forall|i: int| 0 <= i < n ==> #[trigger] zeros(n)[i] == 0u8,
{
}

/// Splicing writes the new bytes at their place, leaves every other byte alone
/// and keeps the length.
pub proof fn splice_overwrites_in_place(dst: Seq<u8>, at: int, src: Seq<u8>)
    requires
        0 <= at,
        at + src.len() <= dst.len(),
    ensures
        splice(dst, at, src).len() == dst.len(),
        forall|i: int|
            0 <= i < dst.len() ==> #[trigger] splice(dst, at, src)[i] == if at <= i < at
                + src.len() {
                src[i - at]
            } else {
                dst[i]
            },
{
}

/// Big-endian bytes are the digits of the number in base 256, the highest one
/// first.
pub proof fn highest_byte_comes_first(n: u64)
    ensures
        be_bytes(n).len() == 8,
        n == be_bytes(n)[0] * 0x100_0000_0000_0000 + be_bytes(n)[1] * 0x1_0000_0000_0000
            + be_bytes(n)[2] * 0x100_0000_0000 + be_bytes(n)[3] * 0x1_0000_0000 + be_bytes(n)[4]
            * 0x100_0000 + be_bytes(n)[5] * 0x1_0000 + be_bytes(n)[6] * 0x100 + be_bytes(n)[7],
{
    assert(n == ((n >> 56) as u8) * 0x100_0000_0000_0000 + ((n >> 48) as u8) * 0x1_0000_0000_0000 + (
    (n >> 40) as u8) * 0x100_0000_0000 + ((n >> 32) as u8) * 0x1_0000_0000 + ((n >> 24) as u8)
        * 0x100_0000 + ((n >> 16) as u8) * 0x1_0000 + ((n >> 8) as u8) * 0x100 + (n as u8))
        by (bit_vector);
}

/// The value of eight bytes is the number whose digits in base 256 they are, the
/// highest one first.
pub proof fn first_byte_weighs_most(s: Seq<u8>)
    requires
        s.len() == 8,
    ensures
        be_value(s) == s[0] * 0x100_0000_0000_0000 + s[1] * 0x1_0000_0000_0000 + s[2]
            * 0x100_0000_0000 + s[3] * 0x1_0000_0000 + s[4] * 0x100_0000 + s[5] * 0x1_0000 + s[6]
            * 0x100 + s[7],
{
    lemma_be_bytes_of_value(s);
    highest_byte_comes_first(be_value(s));
}

} // verus!
