//! Bit-manipulation primitives and the calls into outside crates that the
//! core leans on: bit deposit/extract, population count, sorting of cell
//! lists, and in-place shuffling of strip lists.

use vstd::prelude::*;
use rand::seq::SliceRandom;

verus! {

/// Lexicographic order on cell coordinates; this is the order that the
/// derived `Ord` of a pair of integers uses.
pub open spec fn lex_le(a: (i64, i64), b: (i64, i64)) -> bool {
    a.0 < b.0 || (a.0 == b.0 && a.1 <= b.1)
}

/// Strict lexicographic order on cell coordinates.
pub open spec fn lex_lt(a: (i64, i64), b: (i64, i64)) -> bool {
    a.0 < b.0 || (a.0 == b.0 && a.1 < b.1)
}

/// Relies on itertools::sorted: it returns the elements of the input in
/// ascending `Ord` order (for pairs of integers, the lexicographic order),
/// keeping the multiset of elements.
#[verifier::external_body]
pub fn sorted_cells(v: &Vec<(i64, i64)>) -> (r: Vec<(i64, i64)>)
    ensures
        r@.to_multiset() == v@.to_multiset(),
        r@.len() == v@.len(),
        forall|c: (i64, i64)| r@.contains(c) <==> v@.contains(c),
        forall|i: int, j: int| 0 <= i < j < r@.len() ==> lex_le(r@[i], r@[j]),
{
    itertools::sorted(v.iter().copied()).collect()
}

/// Relies on rand's SliceRandom::shuffle: it permutes the elements of `v` in
/// place; which permutation comes back depends on the thread-local generator,
/// so only the multiset of elements is promised.
#[verifier::external_body]
pub fn shuffle_strips(v: &mut Vec<crate::strip::Strip>)
    ensures
        final(v)@.to_multiset() == old(v)@.to_multiset(),
        final(v)@.len() == old(v)@.len(),
        forall|s: crate::strip::Strip| final(v)@.contains(s) <==> old(v)@.contains(s),
{
    v.shuffle(&mut rand::thread_rng());
}

/// The number of set bits among the low `w` bits of `x`.
pub open spec fn popcnt_rec(x: int, w: nat) -> int
    decreases w,
{
    if w == 0 {
        0
    } else {
        x % 2 + popcnt_rec(x / 2, (w - 1) as nat)
    }
}

/// Relies on u64::count_ones: the number of one bits in the word.
#[verifier::external_body]
pub fn popcnt64(x: u64) -> (r: u32)
    ensures
        r as int == popcnt_rec(x as int, 64),
        r <= 64,
{
    x.count_ones()
}

/// What bit deposit returns: the successive low bits of `src`, scattered to
/// the positions of the set bits of `mask` from low to high; every other bit
/// of the result is clear.
pub open spec fn pdep_rec(src: int, mask: int, w: nat) -> int
    decreases w,
{
    if w == 0 {
        0
    } else if mask % 2 == 1 {
        src % 2 + 2 * pdep_rec(src / 2, mask / 2, (w - 1) as nat)
    } else {
        2 * pdep_rec(src, mask / 2, (w - 1) as nat)
    }
}

/// What bit extract returns: the bits of `src` at the set positions of
/// `mask`, gathered from low to high into a compact value.
pub open spec fn pext_rec(src: int, mask: int, w: nat) -> int
    decreases w,
{
    if w == 0 {
        0
    } else if mask % 2 == 1 {
        src % 2 + 2 * pext_rec(src / 2, mask / 2, (w - 1) as nat)
    } else {
        pext_rec(src / 2, mask / 2, (w - 1) as nat)
    }
}

/// Relies on bitintr's Pdep for u64, the PDEP bit-deposit operation: bits of
/// the result appear only at positions set in `mask`. The all-ones mask is
/// excluded: on it the portable fallback's bit accumulator would overflow.
#[verifier::external_body]
pub fn pdep64(src: u64, mask: u64) -> (r: u64)
    requires
        mask != 0xffff_ffff_ffff_ffffu64,
    ensures
        r as int == pdep_rec(src as int, mask as int, 64),
        r & !mask == 0,
{
    bitintr::Pdep::pdep(src, mask)
}

/// Relies on bitintr's Pext for u64, the PEXT bit-extract operation: the
/// result fits in as many bits as `mask` has set. The all-ones mask is
/// excluded: on it the portable fallback's bit accumulator would overflow.
#[verifier::external_body]
pub fn pext64(src: u64, mask: u64) -> (r: u64)
    requires
        mask != 0xffff_ffff_ffff_ffffu64,
    ensures
        r as int == pext_rec(src as int, mask as int, 64),
{
    bitintr::Pext::pext(src, mask)
}

/// A union of values that each fit below bit `n` fits below bit `n`.
pub proof fn lemma_or_bound(a: u64, b: u64, n: u64)
    requires
        n < 64,
        a >> n == 0,
        b >> n == 0,
    ensures
        (a | b) >> n == 0,
{
    assert((a | b) >> n == 0) by (bit_vector)
        requires
            n < 64 && a >> n == 0 && b >> n == 0,
    ;
}

/// A union of values each disjoint from `m` is disjoint from `m`.
pub proof fn lemma_or_disjoint(a: u64, b: u64, m: u64)
    requires
        a & m == 0,
        b & m == 0,
    ensures
        (a | b) & m == 0,
{
    assert((a | b) & m == 0) by (bit_vector)
        requires
            a & m == 0 && b & m == 0,
    ;
}

/// A value whose bits lie inside `mask` inherits a bit bound of `mask`.
pub proof fn lemma_submask_bound(r: u64, mask: u64, n: u64)
    requires
        n < 64,
        r & !mask == 0,
        mask >> n == 0,
    ensures
        r >> n == 0,
{
    assert(r >> n == 0) by (bit_vector)
        requires
            n < 64 && r & !mask == 0 && mask >> n == 0,
    ;
}

/// A value whose bits lie inside `mask` is disjoint from whatever `mask` is
/// disjoint from.
pub proof fn lemma_submask_disjoint(r: u64, mask: u64, m: u64)
    requires
        r & !mask == 0,
        mask & m == 0,
    ensures
        r & m == 0,
{
    assert(r & m == 0) by (bit_vector)
        requires
            r & !mask == 0 && mask & m == 0,
    ;
}

/// A single bit below `n` fits below bit `n`.
pub proof fn lemma_bit_bound(y: u64, n: u64)
    requires
        y < n,
        n < 64,
    ensures
        (1u64 << y) >> n == 0,
{
    assert((1u64 << y) >> n == 0) by (bit_vector)
        requires
            y < n && n < 64,
    ;
}

/// A single bit at a position where `m` is clear is disjoint from `m`.
pub proof fn lemma_bit_disjoint(m: u64, y: u64)
    requires
        y < 64,
        (m >> y) & 1 == 0,
    ensures
        (1u64 << y) & m == 0,
{
    assert((1u64 << y) & m == 0) by (bit_vector)
        requires
            y < 64 && (m >> y) & 1 == 0,
    ;
}

/// Packing two fields of `la` and `lb` bits side by side stays below bit
/// `la + lb`.
pub proof fn lemma_pack_bound(a: u64, b: u64, la: u64, lb: u64)
    requires
        la + lb <= 32,
        a < (1u64 << la),
        b < (1u64 << lb),
    ensures
        ((a << lb) | b) < (1u64 << (la + lb)),
{
    assert(((a << lb) | b) < (1u64 << ((la + lb) as u64))) by (bit_vector)
        requires
            la + lb <= 32 && a < (1u64 << la) && b < (1u64 << lb),
    ;
}

/// Reading one bit of a mask built by setting single bits.
pub proof fn lemma_or_bit_read(m: u64, s: u64, k: u64)
    requires
        s < 64,
        k < 64,
    ensures
        ((m | (1u64 << s)) >> k) & 1 == (if k == s {
            1u64
        } else {
            (m >> k) & 1
        }),
{
    assert(((m | (1u64 << s)) >> k) & 1 == (if k == s {
        1u64
    } else {
        (m >> k) & 1
    })) by (bit_vector)
        requires
            s < 64 && k < 64,
    ;
}

/// Reading one bit of a 16-bit mask built by setting single bits.
pub proof fn lemma_or_bit_read16(m: u16, s: u16, k: u16)
    requires
        s < 16,
        k < 16,
    ensures
        ((m | (1u16 << s)) >> k) & 1 == (if k == s {
            1u16
        } else {
            (m >> k) & 1
        }),
{
    assert(((m | (1u16 << s)) >> k) & 1 == (if k == s {
        1u16
    } else {
        (m >> k) & 1
    })) by (bit_vector)
        requires
            s < 16 && k < 16,
    ;
}

/// The zero word has no bits anywhere.
pub proof fn lemma_zero64(n: u64, m: u64)
    ensures
        (0u64 >> n) == 0,
        (0u64 & m) == 0,
{
    assert((0u64 >> n) == 0 && (0u64 & m) == 0) by (bit_vector);
}

/// A single bit shifted by a small amount stays small and positive.
pub proof fn lemma_shift_range(n: u64)
    requires
        n <= 25,
    ensures
        1 <= (1u64 << n) <= 0x200_0000,
{
    assert(1 <= (1u64 << n) <= 0x200_0000) by (bit_vector)
        requires
            n <= 25,
    ;
}

/// A value with no bits at or above `n` is not the all-ones word.
pub proof fn lemma_bounded_not_all_ones(m: u64, n: u64)
    requires
        n < 64,
        m >> n == 0,
    ensures
        m != 0xffff_ffff_ffff_ffffu64,
{
    assert(m != 0xffff_ffff_ffff_ffffu64) by (bit_vector)
        requires
            n < 64 && m >> n == 0,
    ;
}

/// Masking with one keeps at most one.
pub proof fn lemma_and1(x: u64)
    ensures
        (x & 1) <= 1,
{
    assert((x & 1) <= 1) by (bit_vector);
}

/// Every bit of the zero word is clear.
pub proof fn lemma_zero_bit16(k: u16)
    ensures
        (0u16 >> k) & 1 == 0,
{
    assert((0u16 >> k) & 1 == 0) by (bit_vector);
}

} // verus!
