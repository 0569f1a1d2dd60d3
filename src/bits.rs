use bitintr::Lzcnt;
use vstd::prelude::*;

verus! {

/// Whether bit `k` of `w`, counted from the least significant end, is set.
pub open spec fn lsb_set(w: u32, k: u32) -> bool {
    (w >> k) & 1u32 == 1u32
}

/// Whether bit `j` of `w`, counted from the most significant end, is set.
pub open spec fn word_bit(w: u32, j: int) -> bool {
    0 <= j < 32 && lsb_set(w, (31 - j) as u32)
}

/// Whether position `p` of a bitmap made of 32-bit words is set; position 0
/// is the most significant bit of the first word.
pub open spec fn map_bit(words: Seq<u32>, p: int) -> bool {
    0 <= p < 32 * words.len() && word_bit(words[p / 32], p % 32)
}

/// Relies on bitintr's `Lzcnt::lzcnt` for `u32`: the number of leading zero
/// bits, 32 for zero.
#[verifier::external_body]
pub(crate) fn lzcnt(w: u32) -> (r: u32)
    ensures
        r <= 32,
        w == 0 <==> r == 32,
        r < 32 ==> w >> ((31 - r) as u32) == 1u32,
{
    w.lzcnt()
}

pub proof fn lemma_or_one(w: u32, s: u32, k: u32)
    requires
        s < 32,
        k < 32,
    ensures
        lsb_set(w | (1u32 << s), k) <==> (lsb_set(w, k) || k == s),
{
    assert(((w | (1u32 << s)) >> k) & 1u32 == 1u32 <==> ((w >> k) & 1u32 == 1u32 || k == s))
        by (bit_vector)
        requires
            s < 32,
            k < 32,
    ;
}

pub proof fn lemma_clear_one(w: u32, s: u32, k: u32)
    requires
        s < 32,
        k < 32,
    ensures
        lsb_set(w & !(1u32 << s), k) <==> (lsb_set(w, k) && k != s),
{
    assert(((w & !(1u32 << s)) >> k) & 1u32 == 1u32 <==> ((w >> k) & 1u32 == 1u32 && k != s))
        by (bit_vector)
        requires
            s < 32,
            k < 32,
    ;
}

pub proof fn lemma_or(a: u32, b: u32, k: u32)
    requires
        k < 32,
    ensures
        lsb_set(a | b, k) <==> (lsb_set(a, k) || lsb_set(b, k)),
{
    assert(((a | b) >> k) & 1u32 == 1u32 <==> ((a >> k) & 1u32 == 1u32 || (b >> k) & 1u32
        == 1u32)) by (bit_vector)
        requires
            k < 32,
    ;
}

pub proof fn lemma_and(a: u32, b: u32, k: u32)
    requires
        k < 32,
    ensures
        lsb_set(a & b, k) <==> (lsb_set(a, k) && lsb_set(b, k)),
{
    assert(((a & b) >> k) & 1u32 == 1u32 <==> ((a >> k) & 1u32 == 1u32 && (b >> k) & 1u32
        == 1u32)) by (bit_vector)
        requires
            k < 32,
    ;
}

pub proof fn lemma_shl(a: u32, n: u32, k: u32)
    requires
        n < 32,
        k < 32,
    ensures
        lsb_set(a << n, k) <==> (k >= n && lsb_set(a, (k - n) as u32)),
{
    assert(((a << n) >> k) & 1u32 == 1u32 <==> (k >= n && (a >> ((k - n) as u32)) & 1u32
        == 1u32)) by (bit_vector)
        requires
            n < 32,
            k < 32,
    ;
}

pub proof fn lemma_shr(a: u32, n: u32, k: u32)
    requires
        n < 32,
        k < 32,
    ensures
        lsb_set(a >> n, k) <==> (k + n < 32 && lsb_set(a, (k + n) as u32)),
{
    assert(((a >> n) >> k) & 1u32 == 1u32 <==> (k + n < 32 && (a >> ((k + n) as u32)) & 1u32
        == 1u32)) by (bit_vector)
        requires
            n < 32,
            k < 32,
    ;
}

/// Testing a bit through a one-bit mask.
pub proof fn lemma_test_bit(w: u32, s: u32)
    requires
        s < 32,
    ensures
        (w & (1u32 << s)) != 0 <==> lsb_set(w, s),
{
    assert((w & (1u32 << s)) != 0 <==> (w >> s) & 1u32 == 1u32) by (bit_vector)
        requires
            s < 32,
    ;
}

/// Splitting a bit offset into a word index and a position in the word.
pub proof fn lemma_split(x: u32)
    ensures
        x >> 5u32 == x / 32,
        x & 31u32 == x % 32,
{
    assert(x >> 5u32 == x / 32 && x & 31u32 == x % 32) by (bit_vector);
}

/// Position `p` of a bitmap is bit `p % 32` of word `p / 32`.
pub proof fn lemma_pos(i: int, j: int)
    requires
        0 <= j < 32,
    ensures
        (32 * i + j) / 32 == i,
        (32 * i + j) % 32 == j,
{
    vstd::arithmetic::div_mod::lemma_fundamental_div_mod_converse(32 * i + j, 32, i, j);
}

pub proof fn lemma_not(a: u32, k: u32)
    requires
        k < 32,
    ensures
        lsb_set(!a, k) <==> !lsb_set(a, k),
{
    assert(((!a) >> k) & 1u32 == 1u32 <==> !((a >> k) & 1u32 == 1u32)) by (bit_vector)
        requires
            k < 32,
    ;
}

/// The bits of `u32::MAX >> s`: the low `32 - s` bits.
pub proof fn lemma_low_mask(s: u32, k: u32)
    requires
        s < 32,
        k < 32,
    ensures
        lsb_set(0xFFFF_FFFFu32 >> s, k) <==> k + s < 32,
{
    lemma_shr(0xFFFF_FFFFu32, s, k);
    if k + s < 32 {
        lemma_full((k + s) as u32);
    }
}

/// The bits of `u32::MAX << s`: all but the low `s` bits.
pub proof fn lemma_high_mask(s: u32, k: u32)
    requires
        s < 32,
        k < 32,
    ensures
        lsb_set(0xFFFF_FFFFu32 << s, k) <==> k >= s,
{
    lemma_shl(0xFFFF_FFFFu32, s, k);
    if k >= s {
        lemma_full((k - s) as u32);
    }
}

/// A word made of the low bits of `a` followed by the high bits of `b`, as
/// when a bitmap moves towards its first word by `nb` bits.
pub proof fn lemma_join_left(a: u32, b: u32, nb: u32, j: int)
    requires
        0 < nb < 32,
        0 <= j < 32,
    ensures
        word_bit((a << nb) | (b >> ((32 - nb) as u32)), j) == if j + nb < 32 {
            word_bit(a, j + nb)
        } else {
            word_bit(b, j + nb - 32)
        },
{
    let k = (31 - j) as u32;
    lemma_or(a << nb, b >> ((32 - nb) as u32), k);
    lemma_shl(a, nb, k);
    lemma_shr(b, (32 - nb) as u32, k);
}

/// A word made of the high bits of `a` shifted down, as when a bitmap moves
/// towards its first word by `nb` bits and nothing follows.
pub proof fn lemma_shl_word(a: u32, nb: u32, j: int)
    requires
        nb < 32,
        0 <= j < 32,
    ensures
        word_bit(a << nb, j) == (j + nb < 32 && word_bit(a, j + nb)),
{
    lemma_shl(a, nb, (31 - j) as u32);
}

/// A word made of the low bits of `b` followed by the high bits of `a`, as
/// when a bitmap moves away from its first word by `nb` bits.
pub proof fn lemma_join_right(a: u32, b: u32, nb: u32, j: int)
    requires
        0 < nb < 32,
        0 <= j < 32,
    ensures
        word_bit((a >> nb) | (b << ((32 - nb) as u32)), j) == if j >= nb {
            word_bit(a, j - nb)
        } else {
            word_bit(b, j + 32 - nb)
        },
{
    let k = (31 - j) as u32;
    lemma_or(a >> nb, b << ((32 - nb) as u32), k);
    lemma_shr(a, nb, k);
    lemma_shl(b, (32 - nb) as u32, k);
}

/// A word made of the high bits of `a` shifted up, as when a bitmap moves
/// away from its first word by `nb` bits and nothing precedes.
pub proof fn lemma_shr_word(a: u32, nb: u32, j: int)
    requires
        nb < 32,
        0 <= j < 32,
    ensures
        word_bit(a >> nb, j) == (j >= nb && word_bit(a, j - nb)),
{
    lemma_shr(a, nb, (31 - j) as u32);
}

pub proof fn lemma_zero(k: u32)
    requires
        k < 32,
    ensures
        !lsb_set(0u32, k),
{
    assert((0u32 >> k) & 1u32 == 0u32) by (bit_vector);
}

pub proof fn lemma_full(k: u32)
    requires
        k < 32,
    ensures
        lsb_set(0xFFFF_FFFFu32, k),
{
    assert((0xFFFF_FFFFu32 >> k) & 1u32 == 1u32) by (bit_vector)
        requires
            k < 32,
    ;
}

/// The word `w` has its top set bit at position `s` (from the least
/// significant end): no higher bit is set.
pub proof fn lemma_top_bit(w: u32, s: u32, k: u32)
    requires
        s < 32,
        k < 32,
        w >> s == 1u32,
    ensures
        lsb_set(w, s),
        k > s ==> !lsb_set(w, k),
{
    assert((w >> s) & 1u32 == 1u32 && (k > s ==> (w >> k) & 1u32 == 0u32)) by (bit_vector)
        requires
            s < 32,
            k < 32,
            w >> s == 1u32,
    ;
}

/// Isolating the lowest set bit of `w` keeps that bit alone.
pub proof fn lemma_lowest_bit(w: u32, s: u32, k: u32)
    requires
        s < 32,
        k < 32,
        w != 0,
        (w & !((w - 1) as u32)) >> s == 1u32,
    ensures
        lsb_set(w, s),
        k < s ==> !lsb_set(w, k),
{
    assert((w >> s) & 1u32 == 1u32 && (k < s ==> (w >> k) & 1u32 == 0u32)) by (bit_vector)
        requires
            s < 32,
            k < 32,
            w != 0,
            (w & !((w - 1) as u32)) >> s == 1u32,
    ;
}

/// A non-zero word has a set bit.
pub proof fn lemma_nonzero_top(w: u32)
    requires
        w != 0,
    ensures
        (w & !((w - 1) as u32)) != 0,
{
    assert((w & !((w - 1) as u32)) != 0) by (bit_vector)
        requires
            w != 0,
    ;
}

/// A word without set bits is zero.
pub proof fn lemma_no_bits_zero(w: u32)
    requires
        forall|j: int| 0 <= j < 32 ==> !word_bit(w, j),
    ensures
        w == 0,
{
    assert forall|k: u32| k < 32 implies lsb_set(w, k) == lsb_set(0u32, k) by {
        assert(!word_bit(w, 31 - k));
        lemma_zero(k);
    }
    lemma_word_ext(w, 0u32);
}

/// A bit of a word is either 0 or 1.
pub proof fn lemma_bit01(w: u32, k: u32)
    ensures
        (w >> k) & 1u32 == 0u32 || (w >> k) & 1u32 == 1u32,
{
    assert((w >> k) & 1u32 == 0u32 || (w >> k) & 1u32 == 1u32) by (bit_vector);
}

/// Two words with the same bits are equal.
pub proof fn lemma_word_ext(a: u32, b: u32)
    requires
        forall|k: u32| k < 32 ==> lsb_set(a, k) == lsb_set(b, k),
    ensures
        a == b,
{
    assert forall|k: u32| k < 32 implies (a >> k) & 1u32 == (b >> k) & 1u32 by {
        assert(lsb_set(a, k) == lsb_set(b, k));
        lemma_bit01(a, k);
        lemma_bit01(b, k);
    }
    assert((a >> 0u32) & 1u32 == (b >> 0u32) & 1u32);
    assert((a >> 1u32) & 1u32 == (b >> 1u32) & 1u32);
    assert((a >> 2u32) & 1u32 == (b >> 2u32) & 1u32);
    assert((a >> 3u32) & 1u32 == (b >> 3u32) & 1u32);
    assert((a >> 4u32) & 1u32 == (b >> 4u32) & 1u32);
    assert((a >> 5u32) & 1u32 == (b >> 5u32) & 1u32);
    assert((a >> 6u32) & 1u32 == (b >> 6u32) & 1u32);
    assert((a >> 7u32) & 1u32 == (b >> 7u32) & 1u32);
    assert((a >> 8u32) & 1u32 == (b >> 8u32) & 1u32);
    assert((a >> 9u32) & 1u32 == (b >> 9u32) & 1u32);
    assert((a >> 10u32) & 1u32 == (b >> 10u32) & 1u32);
    assert((a >> 11u32) & 1u32 == (b >> 11u32) & 1u32);
    assert((a >> 12u32) & 1u32 == (b >> 12u32) & 1u32);
    assert((a >> 13u32) & 1u32 == (b >> 13u32) & 1u32);
    assert((a >> 14u32) & 1u32 == (b >> 14u32) & 1u32);
    assert((a >> 15u32) & 1u32 == (b >> 15u32) & 1u32);
    assert((a >> 16u32) & 1u32 == (b >> 16u32) & 1u32);
    assert((a >> 17u32) & 1u32 == (b >> 17u32) & 1u32);
    assert((a >> 18u32) & 1u32 == (b >> 18u32) & 1u32);
    assert((a >> 19u32) & 1u32 == (b >> 19u32) & 1u32);
    assert((a >> 20u32) & 1u32 == (b >> 20u32) & 1u32);
    assert((a >> 21u32) & 1u32 == (b >> 21u32) & 1u32);
    assert((a >> 22u32) & 1u32 == (b >> 22u32) & 1u32);
    assert((a >> 23u32) & 1u32 == (b >> 23u32) & 1u32);
    assert((a >> 24u32) & 1u32 == (b >> 24u32) & 1u32);
    assert((a >> 25u32) & 1u32 == (b >> 25u32) & 1u32);
    assert((a >> 26u32) & 1u32 == (b >> 26u32) & 1u32);
    assert((a >> 27u32) & 1u32 == (b >> 27u32) & 1u32);
    assert((a >> 28u32) & 1u32 == (b >> 28u32) & 1u32);
    assert((a >> 29u32) & 1u32 == (b >> 29u32) & 1u32);
    assert((a >> 30u32) & 1u32 == (b >> 30u32) & 1u32);
    assert((a >> 31u32) & 1u32 == (b >> 31u32) & 1u32);
    assert(a == b) by (bit_vector)
        requires
            (a >> 0u32) & 1u32 == (b >> 0u32) & 1u32,
            (a >> 1u32) & 1u32 == (b >> 1u32) & 1u32,
            (a >> 2u32) & 1u32 == (b >> 2u32) & 1u32,
            (a >> 3u32) & 1u32 == (b >> 3u32) & 1u32,
            (a >> 4u32) & 1u32 == (b >> 4u32) & 1u32,
            (a >> 5u32) & 1u32 == (b >> 5u32) & 1u32,
            (a >> 6u32) & 1u32 == (b >> 6u32) & 1u32,
            (a >> 7u32) & 1u32 == (b >> 7u32) & 1u32,
            (a >> 8u32) & 1u32 == (b >> 8u32) & 1u32,
            (a >> 9u32) & 1u32 == (b >> 9u32) & 1u32,
            (a >> 10u32) & 1u32 == (b >> 10u32) & 1u32,
            (a >> 11u32) & 1u32 == (b >> 11u32) & 1u32,
            (a >> 12u32) & 1u32 == (b >> 12u32) & 1u32,
            (a >> 13u32) & 1u32 == (b >> 13u32) & 1u32,
            (a >> 14u32) & 1u32 == (b >> 14u32) & 1u32,
            (a >> 15u32) & 1u32 == (b >> 15u32) & 1u32,
            (a >> 16u32) & 1u32 == (b >> 16u32) & 1u32,
            (a >> 17u32) & 1u32 == (b >> 17u32) & 1u32,
            (a >> 18u32) & 1u32 == (b >> 18u32) & 1u32,
            (a >> 19u32) & 1u32 == (b >> 19u32) & 1u32,
            (a >> 20u32) & 1u32 == (b >> 20u32) & 1u32,
            (a >> 21u32) & 1u32 == (b >> 21u32) & 1u32,
            (a >> 22u32) & 1u32 == (b >> 22u32) & 1u32,
            (a >> 23u32) & 1u32 == (b >> 23u32) & 1u32,
            (a >> 24u32) & 1u32 == (b >> 24u32) & 1u32,
            (a >> 25u32) & 1u32 == (b >> 25u32) & 1u32,
            (a >> 26u32) & 1u32 == (b >> 26u32) & 1u32,
            (a >> 27u32) & 1u32 == (b >> 27u32) & 1u32,
            (a >> 28u32) & 1u32 == (b >> 28u32) & 1u32,
            (a >> 29u32) & 1u32 == (b >> 29u32) & 1u32,
            (a >> 30u32) & 1u32 == (b >> 30u32) & 1u32,
            (a >> 31u32) & 1u32 == (b >> 31u32) & 1u32,
    ;
}

} // verus!
