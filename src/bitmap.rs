use crate::bits::{
    lemma_no_bits_zero, word_bit, lemma_join_left, lemma_join_right, lemma_shl_word, lemma_shr_word, lemma_and, lemma_high_mask, lemma_low_mask, lemma_not, lemma_or, lemma_clear_one, lemma_lowest_bit, lemma_nonzero_top, lemma_or_one, lemma_pos, lemma_split,
    lemma_test_bit, lemma_top_bit, lemma_zero, lzcnt, map_bit,
};
use vstd::prelude::*;

verus! {

/// What a `BitmapRange` holds, seen as plain values.
pub struct BitmapView {
    /// The item that bit 0 stands for.
    pub base: u32,
    /// One past the highest offset that is set; 0 when nothing is set.
    pub num_bits: u32,
    /// The eight words of the bitmap, most significant bit first.
    pub words: Seq<u32>,
}

impl BitmapView {
    /// Whether offset `p` from the base is set.
    pub open spec fn bit(self, p: int) -> bool {
        0 <= p < 256 && map_bit(self.words, p)
    }

    /// Whether `item` lies in the window and is set.
    pub open spec fn contains(self, item: int) -> bool {
        self.base <= item < self.base + 256 && self.bit(item - self.base)
    }

    /// The set of items held.
    pub open spec fn items(self) -> Set<int> {
        Set::new(|i: int| self.contains(i))
    }

    /// Whether `item` lies in the 256-item window that starts at the base.
    pub open spec fn in_window(self, item: int) -> bool {
        self.base <= item < self.base + 256
    }

    /// The highest item held, when one is.
    pub open spec fn max_item(self) -> int {
        self.base + self.num_bits - 1
    }

    /// Well-formedness: eight words, a window that fits in `u32`, and
    /// `num_bits` one past the highest set offset.
    pub open spec fn wf(self) -> bool {
        &&& self.words.len() == 8
        &&& self.base + 255 <= u32::MAX
        &&& self.num_bits <= 256
        &&& forall|p: int| self.num_bits <= p < 256 ==> !#[trigger] self.bit(p)
        &&& self.num_bits > 0 ==> self.bit(self.num_bits - 1)
    }
}

/// An empty view anchored at `base`.
pub open spec fn empty_view(base: u32) -> BitmapView {
    BitmapView { base, num_bits: 0, words: Seq::new(8, |i: int| 0u32) }
}

/// `after` is what `add(item)` leaves of `before`, returning `r`: the item is
/// set when it lies in the window, and nothing changes otherwise.
pub open spec fn add_post(before: BitmapView, item: u32, r: bool, after: BitmapView) -> bool {
    &&& after.wf()
    &&& r == before.in_window(item as int)
    &&& after.base == before.base
    &&& forall|p: int|
        #[trigger] after.bit(p) == (before.bit(p) || (r && p == item - before.base))
    &&& r ==> after.num_bits == vstd::math::max(before.num_bits as int, item - before.base + 1)
    &&& !r ==> after == before
}

/// `after` is what `add_range(from, to)` leaves of `before`: every item of
/// `[from, to)` in the window is set.
pub open spec fn add_range_post(before: BitmapView, from: u32, to: u32, after: BitmapView) -> bool {
    &&& after.wf()
    &&& after.base == before.base
    &&& forall|p: int|
        #[trigger] after.bit(p) == (before.bit(p) || (0 <= p < 256 && from <= before.base + p
            < to))
}

/// `after` is what `remove(item)` leaves of `before`: the item is clear.
pub open spec fn remove_post(before: BitmapView, item: u32, after: BitmapView) -> bool {
    &&& after.wf()
    &&& after.base == before.base
    &&& forall|p: int| #[trigger] after.bit(p) == (before.bit(p) && p != item - before.base)
}

/// `after` is what `bitmap_set(num_bits, words)` leaves of `before`: the
/// offsets below `num_bits` that `words` sets, and no others.
pub open spec fn bitmap_set_post(
    before: BitmapView,
    num_bits: u32,
    words: Seq<u32>,
    after: BitmapView,
) -> bool {
    &&& after.wf()
    &&& after.base == before.base
    &&& forall|p: int| #[trigger] after.bit(p) == (0 <= p < num_bits && map_bit(words, p))
}

/// `after` is what `base_update(base)` leaves of `before`: anchored at
/// `base`, holding the items of `before` that lie in the new window.
pub open spec fn base_update_post(before: BitmapView, base: u32, after: BitmapView) -> bool {
    &&& after.wf()
    &&& after.base == base
    &&& forall|p: int| #[trigger] after.bit(p) == (0 <= p < 256 && before.contains(base + p))
}

/// A fixed 256-item bitmap anchored at a base value: bit `p` stands for item
/// `base + p`.
pub struct BitmapRange {
    base: u32,
    bitmap: [u32; 8],
    num_bits: u32,
}

impl View for BitmapRange {
    type V = BitmapView;

    closed spec fn view(&self) -> BitmapView {
        BitmapView { base: self.base, num_bits: self.num_bits, words: self.bitmap@ }
    }
}

proof fn lemma_empty_view(base: u32)
    ensures
        forall|p: int| !#[trigger] empty_view(base).bit(p),
{
    assert forall|p: int| !#[trigger] empty_view(base).bit(p) by {
        if 0 <= p < 256 {
            lemma_zero((31 - p % 32) as u32);
        }
    }
}

/// The bits of one word after it is changed: the other words keep theirs.
proof fn lemma_word_changed(old_words: Seq<u32>, new_words: Seq<u32>, i: int, p: int)
    requires
        old_words.len() == 8,
        0 <= i < 8,
        new_words == old_words.update(i, new_words[i]),
        0 <= p < 256,
        p / 32 != i,
    ensures
        map_bit(new_words, p) == map_bit(old_words, p),
{
}

/// The word at index `k` after the bitmap moves towards its first word by
/// `32 * ni + nb` positions.
pub open spec fn left_word(w: Seq<u32>, ni: int, nb: u32, k: int) -> u32 {
    if nb == 0 {
        if k + ni < 8 {
            w[k + ni]
        } else {
            0
        }
    } else if k + ni < 7 {
        (w[k + ni] << nb) | (w[k + ni + 1] >> ((32 - nb) as u32))
    } else if k + ni == 7 {
        w[7] << nb
    } else {
        0
    }
}

/// The word at index `k` after the bitmap moves away from its first word by
/// `32 * ni + nb` positions.
pub open spec fn right_word(w: Seq<u32>, ni: int, nb: u32, k: int) -> u32 {
    if nb == 0 {
        if k >= ni {
            w[k - ni]
        } else {
            0
        }
    } else if k > ni {
        (w[k - ni] >> nb) | (w[k - ni - 1] << ((32 - nb) as u32))
    } else if k == ni {
        w[0] >> nb
    } else {
        0
    }
}

proof fn lemma_left_words(w: Seq<u32>, v: Seq<u32>, ni: int, nb: u32)
    requires
        w.len() == 8,
        v.len() == 8,
        0 <= ni < 8,
        nb < 32,
        forall|k: int| 0 <= k < 8 ==> v[k] == #[trigger] left_word(w, ni, nb, k),
    ensures
        forall|p: int|
            0 <= p < 256 ==> #[trigger] map_bit(v, p) == (p + 32 * ni + nb < 256 && map_bit(
                w,
                p + 32 * ni + nb,
            )),
{
    assert forall|p: int| 0 <= p < 256 implies #[trigger] map_bit(v, p) == (p + 32 * ni + nb
        < 256 && map_bit(w, p + 32 * ni + nb)) by {
        let k = p / 32;
        let j = p % 32;
        lemma_pos(k, j);
        assert(v[k] == left_word(w, ni, nb, k));
        if nb == 0 {
            if k + ni < 8 {
                lemma_pos(k + ni, j);
            } else {
                lemma_zero((31 - j) as u32);
            }
        } else if k + ni < 7 {
            lemma_join_left(w[k + ni], w[k + ni + 1], nb, j);
            if j + nb < 32 {
                lemma_pos(k + ni, j + nb);
            } else {
                lemma_pos(k + ni + 1, j + nb - 32);
            }
        } else if k + ni == 7 {
            lemma_shl_word(w[7], nb, j);
            if j + nb < 32 {
                lemma_pos(7, j + nb);
            }
        } else {
            lemma_zero((31 - j) as u32);
        }
    }
}

proof fn lemma_right_words(w: Seq<u32>, v: Seq<u32>, ni: int, nb: u32)
    requires
        w.len() == 8,
        v.len() == 8,
        0 <= ni < 8,
        nb < 32,
        forall|k: int| 0 <= k < 8 ==> v[k] == #[trigger] right_word(w, ni, nb, k),
    ensures
        forall|p: int|
            0 <= p < 256 ==> #[trigger] map_bit(v, p) == (p >= 32 * ni + nb && map_bit(
                w,
                p - 32 * ni - nb,
            )),
{
    assert forall|p: int| 0 <= p < 256 implies #[trigger] map_bit(v, p) == (p >= 32 * ni + nb
        && map_bit(w, p - 32 * ni - nb)) by {
        let k = p / 32;
        let j = p % 32;
        lemma_pos(k, j);
        assert(v[k] == right_word(w, ni, nb, k));
        if nb == 0 {
            if k >= ni {
                lemma_pos(k - ni, j);
            } else {
                lemma_zero((31 - j) as u32);
            }
        } else if k > ni {
            lemma_join_right(w[k - ni], w[k - ni - 1], nb, j);
            if j >= nb {
                lemma_pos(k - ni, j - nb);
            } else {
                lemma_pos(k - ni - 1, j + 32 - nb);
            }
        } else if k == ni {
            lemma_shr_word(w[0], nb, j);
            if j >= nb {
                lemma_pos(0, j - nb);
            }
        } else {
            lemma_zero((31 - j) as u32);
        }
    }
}

impl BitmapRange {
    pub const NBITS: usize = 256;

    pub const NITEMS: usize = 8;

    pub open spec fn wf(&self) -> bool {
        self@.wf()
    }

    /// An empty range anchored at 0.
    pub fn new() -> (r: Self)
        ensures
            r.wf(),
            r@ == empty_view(0),
    {
        let r = BitmapRange { base: 0, bitmap: [0u32; 8], num_bits: 0 };
        proof {
            assert(r@.words =~= empty_view(0).words);
            lemma_empty_view(0);
        }
        r
    }

    /// An empty range anchored at `base`.
    pub fn new_from_base(base: u32) -> (r: Self)
        requires
            base <= u32::MAX - 255,
        ensures
            r.wf(),
            r@ == empty_view(base),
    {
        let r = BitmapRange { base, bitmap: [0u32; 8], num_bits: 0 };
        proof {
            assert(r@.words =~= empty_view(base).words);
            lemma_empty_view(base);
        }
        r
    }

    pub fn base(&self) -> (r: u32)
        ensures
            r == self@.base,
    {
        self.base
    }

    /// Re-anchors the range at `base` and clears it.
    pub fn from_base(&mut self, base: u32)
        requires
            base <= u32::MAX - 255,
        ensures
            final(self).wf(),
            final(self)@ == empty_view(base),
    {
        self.base = base;
        self.num_bits = 0;
        let mut i: usize = 0;
        while i < 8
            invariant
                i <= 8,
                self.base == base,
                self.num_bits == 0,
                self.bitmap@.len() == 8,
                forall|k: int| 0 <= k < i ==> self.bitmap@[k] == 0,
            decreases 8 - i,
        {
            self.bitmap[i] = 0;
            i += 1;
        }
        proof {
            assert(self@.words =~= empty_view(base).words);
            lemma_empty_view(base);
        }
    }

    pub fn empty(&self) -> (r: bool)
        requires
            self.wf(),
        ensures
            r == (self@.num_bits == 0),
            r == (forall|p: int| 0 <= p < 256 ==> !#[trigger] self@.bit(p)),
    {
        self.num_bits == 0
    }

    /// The highest item held; on an empty range, the item before the base,
    /// wrapping.
    pub fn max(&self) -> (r: u32)
        requires
            self.wf(),
        ensures
            self@.num_bits > 0 ==> r == self@.max_item(),
            self@.num_bits == 0 ==> r as int == (self@.base - 1) % 0x1_0000_0000,
            self@.num_bits > 0 ==> self@.contains(r as int),
            self@.num_bits > 0 ==> forall|i: int| #[trigger] self@.contains(i) ==> i <= r,
    {
        if self.num_bits == 0 {
            self.base.wrapping_sub(1)
        } else {
            self.base + (self.num_bits - 1)
        }
    }

    /// The lowest item held; the base on an empty range.
    pub fn min(&self) -> (r: u32)
        requires
            self.wf(),
        ensures
            self@.num_bits == 0 ==> r == self@.base,
            self@.num_bits > 0 ==> self@.contains(r as int),
            forall|i: int| #[trigger] self@.contains(i) ==> r <= i,
    {
        let mut item: u32 = self.base;
        let n_longs: u32 = (self.num_bits + 31) / 32;
        let mut i: u32 = 0;
        while i < n_longs
            invariant
                self.wf(),
                n_longs == (self@.num_bits + 31) / 32,
                i <= n_longs <= 8,
                item == self@.base + 32 * i,
                forall|p: int| 0 <= p < 32 * i ==> !#[trigger] self@.bit(p),
            decreases n_longs - i,
        {
            let bits = self.bitmap[i as usize];
            if bits > 0 {
                let offset: u32 = lzcnt(bits);
                proof {
                    assert forall|p: int| 0 <= p < 32 * i + offset implies !#[trigger] self@.bit(
                        p,
                    ) by {
                        if p >= 32 * i {
                            lemma_pos(i as int, p - 32 * i);
                            lemma_top_bit(bits, (31 - offset) as u32, (31 - (p - 32 * i)) as u32);
                        }
                    }
                    lemma_pos(i as int, offset as int);
                    lemma_top_bit(bits, (31 - offset) as u32, 0);
                }
                return item + offset;
            }
            proof {
                assert forall|p: int| 0 <= p < 32 * (i + 1) implies !#[trigger] self@.bit(p) by {
                    if p >= 32 * i {
                        lemma_pos(i as int, p - 32 * i);
                        lemma_zero((31 - (p - 32 * i)) as u32);
                    }
                }
            }
            item = item + 32;
            i += 1;
        }
        self.base
    }

    /// Whether `item` lies in the window and is set.
    pub fn is_set(&self, item: &u32) -> (r: bool)
        requires
            self.wf(),
        ensures
            r == self@.contains(*item as int),
    {
        if *item >= self.base && self.base + 255 >= *item {
            let mut diff: u32 = *item - self.base;
            if diff < self.num_bits {
                let pos: u32 = diff >> 5;
                diff &= 31;
                proof {
                    lemma_split((*item - self.base) as u32);
                    lemma_test_bit(self.bitmap@[pos as int], (31 - diff) as u32);
                }
                return (self.bitmap[pos as usize] & (1u32 << (31 - diff))) != 0;
            }
        }
        false
    }

    /// Sets `item` when it lies in the window; returns whether it did.
    pub fn add(&mut self, item: &u32) -> (r: bool)
        requires
            old(self).wf(),
        ensures
            add_post(old(self)@, *item, r, final(self)@),
    {
        if *item >= self.base && self.base + 255 >= *item {
            let ghost old_view = self@;
            let mut diff: u32 = *item - self.base;
            self.num_bits = if diff + 1 > self.num_bits {
                diff + 1
            } else {
                self.num_bits
            };
            let pos: u32 = diff >> 5;
            diff &= 31;
            proof {
                lemma_split((*item - self.base) as u32);
            }
            self.bitmap[pos as usize] = self.bitmap[pos as usize] | (1u32 << (31 - diff));
            proof {
                let d = *item - self.base;
                assert forall|p: int| #[trigger] self@.bit(p) == (old_view.bit(p) || p == d) by {
                    if 0 <= p < 256 {
                        if p / 32 == pos {
                            lemma_or_one(old_view.words[pos as int], (31 - diff) as u32, (31 - p % 32) as u32);
                        } else {
                            lemma_word_changed(old_view.words, self@.words, pos as int, p);
                        }
                    }
                }
            }
            true
        } else {
            false
        }
    }

    /// Clears `item`; when it was the highest item, `num_bits` falls to the
    /// next lower item held.
    pub fn remove(&mut self, item: &u32)
        requires
            old(self).wf(),
        ensures
            remove_post(old(self)@, *item, final(self)@),
    {
        let max_value = self.max();
        if !self.empty() && *item >= self.base && max_value >= *item {
            let ghost old_view = self@;
            let mut diff: u32 = *item - self.base;
            let pos: u32 = diff >> 5;
            diff &= 31;
            proof {
                lemma_split((*item - self.base) as u32);
            }
            self.bitmap[pos as usize] = self.bitmap[pos as usize] & !(1u32 << (31 - diff));
            proof {
                let d = *item - self.base;
                assert forall|p: int| #[trigger] self@.bit(p) == (old_view.bit(p) && p != d) by {
                    if 0 <= p < 256 {
                        if p / 32 == pos {
                            lemma_clear_one(
                                old_view.words[pos as int],
                                (31 - diff) as u32,
                                (31 - p % 32) as u32,
                            );
                        } else {
                            lemma_word_changed(old_view.words, self@.words, pos as int, p);
                        }
                    }
                }
            }
            if *item == max_value {
                proof {
                    assert forall|p: int| 32 * (pos + 1) <= p < 256 implies !#[trigger] self@.bit(
                        p,
                    ) by {
                        assert(old_view.num_bits <= p);
                    }
                }
                let ghost mid_view = self@;
                self.calc_maximum_bit_set(pos + 1, 0);
                proof {
                    assert forall|p: int| #[trigger] self@.bit(p) == mid_view.bit(p) by {}
                }
            }
        }
    }

    /// Sets every item of `[from, to)` that lies in the window.
    pub fn add_range(&mut self, from: &u32, to: &u32)
        requires
            old(self).wf(),
        ensures
            add_range_post(old(self)@, *from, *to, final(self)@),
    {
        let ghost old_view = self@;
        let full_mask: u32 = u32::MAX;
        let min: u32 = if self.base >= *from {
            self.base
        } else {
            *from
        };
        let max: u64 = if *to as u64 >= self.base as u64 + 256 {
            self.base as u64 + 256
        } else {
            *to as u64
        };
        if min as u64 >= max {
            proof {
                assert forall|p: int| #[trigger] self@.bit(p) == (old_view.bit(p) || (0 <= p < 256
                    && *from <= old_view.base + p < *to)) by {}
            }
            return ;
        }
        let ghost lo: int = min - self.base;
        let ghost end: int = max - self.base;
        let mut offset: u32 = min - self.base;
        let mut n_bits: u32 = (max - min as u64) as u32;
        self.num_bits = if self.num_bits >= offset + n_bits {
            self.num_bits
        } else {
            offset + n_bits
        };
        let ghost new_num_bits = self.num_bits;
        proof {
            lemma_split(offset);
            assert forall|p: int| #[trigger] self@.bit(p) == old_view.bit(p) by {}
        }
        let mut pos: u32 = offset >> 5;
        offset &= 31;
        let mut mask: u32 = full_mask >> offset;
        let mut bits_in_mask: u32 = 32 - offset;
        while n_bits >= bits_in_mask
            invariant
                old_view.wf(),
                0 <= lo < end <= 256,
                1 <= bits_in_mask <= 32,
                mask == full_mask >> ((32 - bits_in_mask) as u32),
                full_mask == u32::MAX,
                lo <= 32 * pos + 32 - bits_in_mask,
                32 * pos + 32 - bits_in_mask + n_bits == end,
                self@.base == old_view.base,
                self@.num_bits == new_num_bits,
                self@.words.len() == 8,
                forall|p: int|
                    #[trigger] self@.bit(p) == (old_view.bit(p) || lo <= p < 32 * pos + 32
                        - bits_in_mask),
            decreases n_bits,
        {
            let ghost pre = self@;
            let ghost cur: int = 32 * pos + 32 - bits_in_mask;
            self.bitmap[pos as usize] = self.bitmap[pos as usize] | mask;
            proof {
                assert forall|p: int| #[trigger] self@.bit(p) == (old_view.bit(p) || lo <= p < 32
                    * (pos + 1)) by {
                    if 0 <= p < 256 {
                        if p / 32 == pos {
                            let j = p % 32;
                            lemma_or(pre.words[pos as int], mask, (31 - j) as u32);
                            lemma_low_mask((32 - bits_in_mask) as u32, (31 - j) as u32);
                            assert(pre.bit(p) == (old_view.bit(p) || lo <= p < cur));
                        } else {
                            lemma_word_changed(pre.words, self@.words, pos as int, p);
                            assert(pre.bit(p) == self@.bit(p));
                        }
                    }
                }
            }
            pos += 1;
            n_bits -= bits_in_mask;
            mask = full_mask;
            bits_in_mask = 32;
            proof {
                assert(full_mask >> 0u32 == full_mask) by (bit_vector);
            }
        }
        if n_bits > 0 {
            let ghost pre = self@;
            self.bitmap[pos as usize] = self.bitmap[pos as usize] | (mask & (full_mask << (
            bits_in_mask - n_bits)));
            proof {
                assert forall|p: int| #[trigger] self@.bit(p) == (old_view.bit(p) || lo <= p
                    < end) by {
                    if 0 <= p < 256 {
                        if p / 32 == pos {
                            let j = p % 32;
                            let k = (31 - j) as u32;
                            let m2 = full_mask << ((bits_in_mask - n_bits) as u32);
                            lemma_or(pre.words[pos as int], mask & m2, k);
                            lemma_and(mask, m2, k);
                            lemma_low_mask((32 - bits_in_mask) as u32, k);
                            lemma_high_mask((bits_in_mask - n_bits) as u32, k);
                            assert(pre.bit(p) == (old_view.bit(p) || lo <= p < 32 * pos + 32
                                - bits_in_mask));
                        } else {
                            lemma_word_changed(pre.words, self@.words, pos as int, p);
                            assert(pre.bit(p) == self@.bit(p));
                        }
                    }
                }
            }
        }
        proof {
            assert forall|p: int| #[trigger] self@.bit(p) == (old_view.bit(p) || (0 <= p < 256
                && *from <= old_view.base + p < *to)) by {
                assert(self@.bit(p) == (old_view.bit(p) || lo <= p < end));
            }
            if end - 1 >= old_view.num_bits {
                assert(self@.bit(end - 1));
            } else {
                assert(old_view.bit(old_view.num_bits - 1));
                assert(self@.bit(self@.num_bits - 1));
            }
            assert forall|p: int| self@.num_bits <= p < 256 implies !#[trigger] self@.bit(p) by {
                assert(!old_view.bit(p));
            }
        }
    }

    /// Exports `num_bits`, the words, and how many words are in use.
    pub fn bitmap_get(&self, num_bits: &mut u32, bitmap: &mut [u32; 8], num_longs_used: &mut u32)
        requires
            self.wf(),
        ensures
            *final(num_bits) == self@.num_bits,
            final(bitmap)@ == self@.words,
            *final(num_longs_used) == (self@.num_bits + 31) / 32,
    {
        *num_bits = self.num_bits;
        *num_longs_used = (self.num_bits + 31) / 32;
        *bitmap = self.bitmap;
    }

    /// Loads the bitmap from `num_bits` and words as received: offsets at
    /// `num_bits` (clamped to 256) and above are cleared, and `num_bits` is
    /// worked out again from the highest offset set.
    pub fn bitmap_set(&mut self, num_bits: u32, bitmap: &[u32; 8])
        requires
            old(self).wf(),
        ensures
            bitmap_set_post(old(self)@, num_bits, bitmap@, final(self)@),
    {
        let ghost old_view = self@;
        let n: u32 = if num_bits < 256 {
            num_bits
        } else {
            256
        };
        self.num_bits = n;
        let num_items: u32 = (n + 31) / 32;
        let mut i: usize = 0;
        while i < 8
            invariant
                i <= 8,
                num_items <= 8,
                self@.base == old_view.base,
                self@.words.len() == 8,
                forall|k: int|
                    0 <= k < i ==> self@.words[k] == if k < num_items {
                        bitmap@[k]
                    } else {
                        0u32
                    },
            decreases 8 - i,
        {
            self.bitmap[i] = if (i as u32) < num_items {
                bitmap[i]
            } else {
                0
            };
            i += 1;
        }
        let ghost copied = self@;
        proof {
            assert forall|p: int| 0 <= p < 256 implies #[trigger] copied.bit(p) == (p < 32
                * num_items && map_bit(bitmap@, p)) by {
                if p >= 32 * num_items {
                    lemma_zero((31 - p % 32) as u32);
                }
            }
        }
        if n & 31 != 0 {
            let r: u32 = n & 31;
            proof {
                lemma_split(n);
            }
            self.bitmap[num_items as usize - 1] = self.bitmap[num_items as usize - 1] & !(u32::MAX
                >> r);
            proof {
                let last = num_items - 1;
                assert forall|p: int| 0 <= p < 256 implies #[trigger] self@.bit(p) == (p < n
                    && map_bit(bitmap@, p)) by {
                    if p / 32 == last {
                        let k = (31 - p % 32) as u32;
                        lemma_and(copied.words[last], !(u32::MAX >> r), k);
                        lemma_not(u32::MAX >> r, k);
                        lemma_low_mask(r, k);
                        assert(copied.bit(p) == (p < 32 * num_items && map_bit(bitmap@, p)));
                    } else {
                        lemma_word_changed(copied.words, self@.words, last, p);
                        assert(copied.bit(p) == (p < 32 * num_items && map_bit(bitmap@, p)));
                    }
                }
            }
        } else {
            proof {
                lemma_split(n);
            }
        }
        let ghost masked = self@;
        proof {
            assert forall|p: int| 32 * num_items <= p < 256 implies !#[trigger] masked.bit(p) by {
                assert(copied.bit(p) == masked.bit(p)) by {
                    if n & 31 != 0 {
                        assert(masked.bit(p) == (p < n && map_bit(bitmap@, p)));
                    }
                }
            }
        }
        self.calc_maximum_bit_set(num_items, 0);
        proof {
            assert forall|p: int| #[trigger] self@.bit(p) == (0 <= p < num_bits && map_bit(
                bitmap@,
                p,
            )) by {
                assert(self@.bit(p) == masked.bit(p));
                if 0 <= p < 256 {
                    if n & 31 == 0 {
                        assert(masked.bit(p) == copied.bit(p));
                    }
                }
            }
        }
    }

    /// Moves the window to start at `base`, keeping the items that are in
    /// both the old and the new window.
    pub fn base_update(&mut self, base: u32)
        requires
            old(self).wf(),
            base <= u32::MAX - 255,
        ensures
            base_update_post(old(self)@, base, final(self)@),
    {
        let ghost old_view = self@;
        if base == self.base {
            return ;
        }
        if base > self.base {
            let n_bits = BitmapRange::d_func(base, self.base);
            self.shift_map_left(n_bits);
        } else {
            let n_bits = BitmapRange::d_func(self.base, base);
            self.shift_map_right(n_bits);
        }
        let ghost shifted = self@;
        self.base = base;
        proof {
            assert forall|p: int| #[trigger] self@.bit(p) == (0 <= p < 256 && old_view.contains(
                base + p,
            )) by {
                assert(self@.bit(p) == shifted.bit(p));
            }
            assert forall|p: int| self@.num_bits <= p < 256 implies !#[trigger] self@.bit(p) by {
                assert(self@.bit(p) == shifted.bit(p));
            }
            if self@.num_bits > 0 {
                assert(self@.bit(self@.num_bits - 1) == shifted.bit(self@.num_bits - 1));
            }
        }
    }

    fn d_func(a: u32, b: u32) -> (r: u32)
        requires
            a >= b,
        ensures
            r == a - b,
    {
        a - b
    }

    /// Clears every word.
    fn clear_words(&mut self)
        ensures
            final(self)@.words == Seq::new(8, |i: int| 0u32),
            final(self)@.base == old(self)@.base,
            final(self)@.num_bits == old(self)@.num_bits,
    {
        let mut i: usize = 0;
        while i < 8
            invariant
                i <= 8,
                self@.base == old(self)@.base,
                self@.num_bits == old(self)@.num_bits,
                self.bitmap@.len() == 8,
                forall|k: int| 0 <= k < i ==> self.bitmap@[k] == 0,
            decreases 8 - i,
        {
            self.bitmap[i] = 0;
            i += 1;
        }
        proof {
            assert(self@.words =~= Seq::new(8, |i: int| 0u32));
        }
    }

    /// Moves every bit `n_bits` positions towards offset 0; bits that pass
    /// offset 0 are dropped.
    fn shift_map_left(&mut self, n_bits: u32)
        requires
            old(self).wf(),
        ensures
            final(self).wf(),
            final(self)@.base == old(self)@.base,
            forall|p: int|
                #[trigger] final(self)@.bit(p) == (0 <= p && p + n_bits < 256 && old(self)@.bit(
                    p + n_bits,
                )),
    {
        let ghost old_view = self@;
        if n_bits >= self.num_bits {
            self.num_bits = 0;
            self.clear_words();
            proof {
                lemma_empty_view(self.base);
                assert forall|p: int| #[trigger] self@.bit(p) == (0 <= p && p + n_bits < 256
                    && old_view.bit(p + n_bits)) by {
                    assert(self@.bit(p) == empty_view(self.base).bit(p));
                    if 0 <= p && p + n_bits < 256 {
                        assert(!old_view.bit(p + n_bits));
                    }
                }
            }
        } else {
            self.num_bits = self.num_bits - n_bits;
            let n_items: u32 = n_bits >> 5;
            let nb: u32 = n_bits & 31;
            proof {
                lemma_split(n_bits);
            }
            let ni: usize = n_items as usize;
            if nb == 0 {
                let mut i: usize = 0;
                while i < 8 - ni
                    invariant
                        ni < 8,
                        i <= 8 - ni,
                        self@.words.len() == 8,
                        old_view.words.len() == 8,
                        forall|k: int|
                            0 <= k < i ==> self@.words[k] == #[trigger] left_word(
                                old_view.words,
                                ni as int,
                                nb,
                                k,
                            ),
                        forall|k: int| i <= k < 8 ==> self@.words[k] == old_view.words[k],
                        nb == 0,
                        self@.base == old_view.base,
                        self@.num_bits == old_view.num_bits - n_bits,
                    decreases 8 - i,
                {
                    self.bitmap[i] = self.bitmap[i + ni];
                    i += 1;
                }
                self.zero_tail(8 - ni, ni, nb, Ghost(old_view.words));
            } else {
                let overflow_bits: u32 = 32 - nb;
                let last_index: usize = 7;
                let mut i: usize = 0;
                let mut n: usize = ni;
                while n < last_index
                    invariant
                        ni < 8,
                        n == i + ni,
                        n <= last_index,
                        last_index == 7,
                        0 < nb < 32,
                        overflow_bits == 32 - nb,
                        self@.words.len() == 8,
                        old_view.words.len() == 8,
                        forall|k: int|
                            0 <= k < i ==> self@.words[k] == #[trigger] left_word(
                                old_view.words,
                                ni as int,
                                nb,
                                k,
                            ),
                        forall|k: int| i <= k < 8 ==> self@.words[k] == old_view.words[k],
                        self@.base == old_view.base,
                        self@.num_bits == old_view.num_bits - n_bits,
                    decreases last_index - n,
                {
                    self.bitmap[i] = (self.bitmap[n] << nb) | (self.bitmap[n + 1] >> overflow_bits);
                    i += 1;
                    n += 1;
                }
                self.bitmap[last_index - ni] = self.bitmap[last_index] << nb;
                self.zero_tail(8 - ni, ni, nb, Ghost(old_view.words));
            }
            proof {
                lemma_left_words(old_view.words, self@.words, ni as int, nb);
                assert forall|p: int| #[trigger] self@.bit(p) == (0 <= p && p + n_bits < 256
                    && old_view.bit(p + n_bits)) by {
                    assert(self@.bit(p) == (0 <= p < 256 && map_bit(self@.words, p)));
                }
                assert(self@.bit(self@.num_bits - 1) == old_view.bit(old_view.num_bits - 1));
                assert forall|p: int| self@.num_bits <= p < 256 implies !#[trigger] self@.bit(
                    p,
                ) by {
                    assert(self@.bit(p) == (p + n_bits < 256 && old_view.bit(p + n_bits)));
                }
            }
        }
    }

    /// Clears the words from `from` on, which a shift towards offset 0 left
    /// behind.
    fn zero_tail(&mut self, from: usize, ni: usize, nb: u32, w: Ghost<Seq<u32>>)
        requires
            from == 8 - ni,
            ni < 8,
            w@.len() == 8,
            old(self)@.words.len() == 8,
            forall|k: int|
                0 <= k < from ==> old(self)@.words[k] == #[trigger] left_word(w@, ni as int, nb, k),
        ensures
            final(self)@.base == old(self)@.base,
            final(self)@.num_bits == old(self)@.num_bits,
            final(self)@.words.len() == 8,
            forall|k: int|
                0 <= k < 8 ==> final(self)@.words[k] == #[trigger] left_word(w@, ni as int, nb, k),
    {
        let mut i: usize = from;
        while i < 8
            invariant
                from <= i <= 8,
                from == 8 - ni,
                ni < 8,
                self@.base == old(self)@.base,
                self@.num_bits == old(self)@.num_bits,
                self@.words.len() == 8,
                forall|k: int|
                    0 <= k < from ==> self@.words[k] == #[trigger] left_word(w@, ni as int, nb, k),
                forall|k: int| from <= k < i ==> self@.words[k] == 0,
            decreases 8 - i,
        {
            self.bitmap[i] = 0;
            i += 1;
        }
    }

    /// Moves every bit `n_bits` positions away from offset 0; bits that pass
    /// offset 255 are dropped, and `num_bits` is worked out again when the
    /// highest one was.
    fn shift_map_right(&mut self, n_bits: u32)
        requires
            old(self).wf(),
        ensures
            final(self).wf(),
            final(self)@.base == old(self)@.base,
            forall|p: int|
                #[trigger] final(self)@.bit(p) == (0 <= p < 256 && p >= n_bits && old(self)@.bit(
                    p - n_bits,
                )),
    {
        let ghost old_view = self@;
        if n_bits >= 256 || self.num_bits == 0 {
            self.num_bits = 0;
            self.clear_words();
            proof {
                lemma_empty_view(self.base);
                assert forall|p: int| #[trigger] self@.bit(p) == (0 <= p < 256 && p >= n_bits
                    && old_view.bit(p - n_bits)) by {
                    assert(self@.bit(p) == empty_view(self.base).bit(p));
                    if 0 <= p < 256 && p >= n_bits {
                        assert(!old_view.bit(p - n_bits));
                    }
                }
            }
        } else {
            let new_num_bits: u32 = self.num_bits + n_bits;
            let find_new_max: bool = new_num_bits > 256;
            let n_items: u32 = n_bits >> 5;
            let nb: u32 = n_bits & 31;
            proof {
                lemma_split(n_bits);
            }
            let ni: usize = n_items as usize;
            if nb == 0 {
                let mut i: usize = 8;
                while i > ni
                    invariant
                        ni < 8,
                        ni <= i <= 8,
                        self@.words.len() == 8,
                        old_view.words.len() == 8,
                        forall|k: int|
                            i <= k < 8 ==> self@.words[k] == #[trigger] right_word(
                                old_view.words,
                                ni as int,
                                nb,
                                k,
                            ),
                        forall|k: int| 0 <= k < i ==> self@.words[k] == old_view.words[k],
                        nb == 0,
                        self@.base == old_view.base,
                        self@.num_bits == old_view.num_bits,
                    decreases i,
                {
                    i -= 1;
                    self.bitmap[i] = self.bitmap[i - ni];
                }
                self.zero_head(ni, nb, Ghost(old_view.words));
            } else {
                let overflow_bits: u32 = 32 - nb;
                let last_index: usize = 7;
                let mut i: usize = last_index;
                let mut n: usize = last_index - ni;
                while n > 0
                    invariant
                        ni < 8,
                        i == n + ni,
                        i <= last_index,
                        last_index == 7,
                        0 < nb < 32,
                        overflow_bits == 32 - nb,
                        self@.words.len() == 8,
                        old_view.words.len() == 8,
                        forall|k: int|
                            i < k < 8 ==> self@.words[k] == #[trigger] right_word(
                                old_view.words,
                                ni as int,
                                nb,
                                k,
                            ),
                        forall|k: int| 0 <= k <= i ==> self@.words[k] == old_view.words[k],
                        self@.base == old_view.base,
                        self@.num_bits == old_view.num_bits,
                    decreases n,
                {
                    self.bitmap[i] = (self.bitmap[n] >> nb) | (self.bitmap[n - 1] << overflow_bits);
                    i -= 1;
                    n -= 1;
                }
                self.bitmap[ni] = self.bitmap[0] >> nb;
                self.zero_head(ni, nb, Ghost(old_view.words));
            }
            let ghost shifted = self@;
            proof {
                lemma_right_words(old_view.words, self@.words, ni as int, nb);
                assert forall|p: int| #[trigger] self@.bit(p) == (0 <= p < 256 && p >= n_bits
                    && old_view.bit(p - n_bits)) by {
                    assert(self@.bit(p) == (0 <= p < 256 && map_bit(self@.words, p)));
                }
            }
            self.num_bits = new_num_bits;
            proof {
                assert forall|p: int| #[trigger] self@.bit(p) == shifted.bit(p) by {}
            }
            if find_new_max {
                proof {
                    assert forall|p: int| 0 <= p < 32 * n_items implies !#[trigger] self@.bit(p) by {
                        assert(self@.bit(p) == (0 <= p < 256 && p >= n_bits && old_view.bit(
                            p - n_bits,
                        )));
                    }
                }
                let ghost before = self@;
                self.calc_maximum_bit_set(8, n_items);
                proof {
                    assert forall|p: int| #[trigger] self@.bit(p) == before.bit(p) by {}
                }
            } else {
                proof {
                    assert(self@.bit(self@.num_bits - 1) == old_view.bit(old_view.num_bits - 1));
                    assert forall|p: int| self@.num_bits <= p < 256 implies !#[trigger] self@.bit(
                        p,
                    ) by {
                        assert(self@.bit(p) == (p >= n_bits && old_view.bit(p - n_bits)));
                    }
                }
            }
        }
    }

    /// Clears the words below `ni`, which a shift away from offset 0 left
    /// behind.
    fn zero_head(&mut self, ni: usize, nb: u32, w: Ghost<Seq<u32>>)
        requires
            ni < 8,
            w@.len() == 8,
            old(self)@.words.len() == 8,
            forall|k: int|
                ni <= k < 8 ==> old(self)@.words[k] == #[trigger] right_word(w@, ni as int, nb, k),
        ensures
            final(self)@.base == old(self)@.base,
            final(self)@.num_bits == old(self)@.num_bits,
            final(self)@.words.len() == 8,
            forall|k: int|
                0 <= k < 8 ==> final(self)@.words[k] == #[trigger] right_word(w@, ni as int, nb, k),
    {
        let mut i: usize = 0;
        while i < ni
            invariant
                i <= ni < 8,
                self@.base == old(self)@.base,
                self@.num_bits == old(self)@.num_bits,
                self@.words.len() == 8,
                forall|k: int|
                    ni <= k < 8 ==> self@.words[k] == #[trigger] right_word(w@, ni as int, nb, k),
                forall|k: int| 0 <= k < i ==> self@.words[k] == 0,
            decreases ni - i,
        {
            self.bitmap[i] = 0;
            i += 1;
        }
    }

    /// The items held, in increasing order.
    pub fn items(&self) -> (r: Vec<u32>)
        requires
            self.wf(),
        ensures
            forall|k: int| 0 <= k < r.len() ==> #[trigger] self@.contains(r@[k] as int),
            forall|a: int, b: int| 0 <= a < b < r.len() ==> r@[a] < r@[b],
            forall|i: int| #[trigger] self@.contains(i) ==> r@.contains(i as u32),
    {
        let mut out: Vec<u32> = Vec::new();
        let n_longs: u32 = (self.num_bits + 31) / 32;
        let mut i: u32 = 0;
        while i < n_longs
            invariant
                self.wf(),
                n_longs == (self@.num_bits + 31) / 32,
                i <= n_longs <= 8,
                forall|k: int| 0 <= k < out.len() ==> self@.contains(#[trigger] out@[k] as int),
                forall|k: int| 0 <= k < out.len() ==> #[trigger] out@[k] < self@.base + 32 * i,
                forall|a: int, b: int| 0 <= a < b < out.len() ==> out@[a] < out@[b],
                forall|x: int|
                    #[trigger] self@.contains(x) && x < self@.base + 32 * i ==> out@.contains(
                        x as u32,
                    ),
            decreases n_longs - i,
        {
            let item: u32 = self.base + 32 * i;
            let mut bits: u32 = self.bitmap[i as usize];
            let ghost w = bits;
            let ghost mut lim: int = 0;
            proof {
                assert forall|j: int| 0 <= j < 32 implies #[trigger] word_bit(bits, j) == (
                word_bit(w, j) && j >= lim) by {}
            }
            while bits > 0
                invariant
                    self.wf(),
                    i < n_longs <= 8,
                    item == self@.base + 32 * i,
                    w == self@.words[i as int],
                    0 <= lim <= 32,
                    lim == 32 ==> bits == 0,
                    forall|j: int| 0 <= j < 32 ==> #[trigger] word_bit(bits, j) == (word_bit(w, j)
                        && j >= lim),
                    forall|k: int|
                        0 <= k < out.len() ==> self@.contains(#[trigger] out@[k] as int),
                    forall|k: int|
                        0 <= k < out.len() ==> #[trigger] out@[k] < self@.base + 32 * i + lim,
                    forall|a: int, b: int| 0 <= a < b < out.len() ==> out@[a] < out@[b],
                    forall|x: int|
                        #[trigger] self@.contains(x) && x < self@.base + 32 * i + lim
                            ==> out@.contains(x as u32),
                decreases 32 - lim,
            {
                let offset: u32 = lzcnt(bits);
                let bit: u32 = 31 ^ offset;
                proof {
                    assert(31 ^ offset == 31 - offset) by (bit_vector)
                        requires
                            offset < 32,
                    ;
                    lemma_top_bit(bits, bit, 0);
                    assert forall|j: int| 0 <= j < offset implies !#[trigger] word_bit(bits, j) by {
                        lemma_top_bit(bits, bit, (31 - j) as u32);
                    }
                    assert(word_bit(bits, offset as int));
                    assert(offset >= lim);
                    lemma_pos(i as int, offset as int);
                    assert(self@.contains(item + offset));
                }
                let ghost pre = out@;
                out.push(item + offset);
                proof {
                    assert forall|x: int| #[trigger] self@.contains(x) && x < self@.base + 32 * i
                        + offset + 1 implies out@.contains(x as u32) by {
                        if x < self@.base + 32 * i + lim {
                            assert(pre.contains(x as u32));
                            let k = choose|k: int| 0 <= k < pre.len() && pre[k] == x as u32;
                            assert(out@[k] == x as u32);
                        } else if x < item + offset {
                            let j = x - item;
                            lemma_pos(i as int, j);
                            assert(word_bit(w, j));
                            assert(!word_bit(bits, j));
                        } else {
                            assert(out@[out.len() - 1] == x as u32);
                        }
                    }
                }
                proof {
                    assert forall|a: int, b: int| 0 <= a < b < out.len() implies out@[a]
                        < out@[b] by {
                        if b == out.len() - 1 {
                            assert(pre[a] < self@.base + 32 * i + lim);
                        } else {
                            assert(pre[a] < pre[b]);
                        }
                    }
                    assert forall|k: int| 0 <= k < out.len() implies #[trigger] out@[k]
                        < self@.base + 32 * i + offset + 1 by {
                        if k < out.len() - 1 {
                            assert(pre[k] < self@.base + 32 * i + lim);
                        }
                    }
                }
                let ghost old_bits = bits;
                bits = bits & !(1u32 << bit);
                proof {
                    lim = offset + 1;
                    assert forall|j: int| 0 <= j < 32 implies #[trigger] word_bit(bits, j) == (
                    word_bit(w, j) && j >= lim) by {
                        lemma_clear_one(old_bits, bit, (31 - j) as u32);
                        assert(word_bit(old_bits, j) == (word_bit(w, j) && j >= offset));
                        if j < offset {
                            lemma_top_bit(old_bits, bit, (31 - j) as u32);
                        }
                    }
                    if lim == 32 {
                        lemma_no_bits_zero(bits);
                    }
                }
            }
            proof {
                assert forall|x: int| #[trigger] self@.contains(x) && x < self@.base + 32 * (i + 1)
                    implies out@.contains(x as u32) by {
                    if x >= self@.base + 32 * i + lim {
                        let j = x - item;
                        lemma_pos(i as int, j);
                        assert(word_bit(w, j));
                        lemma_zero((31 - j) as u32);
                        assert(!word_bit(bits, j));
                    }
                }
            }
            i += 1;
        }
        proof {
            assert forall|x: int| #[trigger] self@.contains(x) implies out@.contains(x as u32) by {
                if x >= self@.base + 32 * n_longs {
                    assert(!self@.bit(x - self@.base));
                }
            }
        }
        out
    }

    /// Calls `visit` on each item held, once each, in increasing order: on
    /// the items of `items()`, in turn. `visit` has to accept any item in any
    /// state it reaches. Every item held has been handed to `visit`.
    pub fn for_each<F: FnMut(u32)>(&self, mut visit: F)
        requires
            self.wf(),
            forall|g: F, x: u32| #[trigger] call_requires(g, (x,)),
        ensures
            forall|x: u32| #[trigger] self@.contains(x as int) ==> call_ensures(visit, (x,), ()),
    {
        let ghost v0 = visit;
        let items = self.items();
        let mut k: usize = 0;
        while k < items.len()
            invariant
                k <= items.len(),
                visit == v0,
                forall|g: F, x: u32| #[trigger] call_requires(g, (x,)),
                forall|j: int| 0 <= j < k ==> call_ensures(v0, (#[trigger] items@[j],), ()),
            decreases items.len() - k,
        {
            visit(items[k]);
            k += 1;
        }
        proof {
            assert forall|x: u32| #[trigger] self@.contains(x as int) implies call_ensures(
                v0,
                (x,),
                (),
            ) by {
                assert(items@.contains(x as int as u32));
                let j = choose|j: int| 0 <= j < items@.len() && items@[j] == x;
                assert(call_ensures(v0, (items@[j],), ()));
            }
        }
    }

    /// Sets `num_bits` to one past the highest set offset, looking only at
    /// the words from `min_index` up to `starting_index`, the others being
    /// clear.
    fn calc_maximum_bit_set(&mut self, starting_index: u32, min_index: u32)
        requires
            old(self)@.words.len() == 8,
            old(self)@.base + 255 <= u32::MAX,
            min_index <= starting_index <= 8,
            forall|p: int| 32 * starting_index <= p < 256 ==> !#[trigger] old(self)@.bit(p),
            forall|p: int| 0 <= p < 32 * min_index ==> !#[trigger] old(self)@.bit(p),
        ensures
            final(self).wf(),
            final(self)@.base == old(self)@.base,
            final(self)@.words == old(self)@.words,
    {
        self.num_bits = 0;
        proof {
            assert forall|p: int| #[trigger] self@.bit(p) == old(self)@.bit(p) by {}
        }
        let mut i: usize = starting_index as usize;
        let end: usize = min_index as usize;
        while i > end
            invariant_except_break
                end <= i <= starting_index,
                self.num_bits == 0,
                forall|p: int| 32 * i <= p < 256 ==> !#[trigger] self@.bit(p),
            invariant
                min_index <= starting_index <= 8,
                end == min_index,
                self@.words == old(self)@.words,
                self@.base == old(self)@.base,
                self@.words.len() == 8,
                self@.base + 255 <= u32::MAX,
                forall|p: int| 0 <= p < 32 * min_index ==> !#[trigger] self@.bit(p),
            ensures
                self.wf(),
            decreases i,
        {
            i -= 1;
            let ghost pre = self@;
            let mut bits = self.bitmap[i];
            if bits != 0 {
                proof {
                    lemma_nonzero_top(bits);
                }
                let ghost w = bits;
                bits = bits & !(bits - 1);
                let lz = lzcnt(bits);
                let offset: u32 = lz + 1;
                proof {
                    let iu = i as u32;
                    assert((iu << 5u32) == 32 * iu) by (bit_vector)
                        requires
                            iu < 8,
                    ;
                }
                self.num_bits = ((i as u32) << 5) + offset;
                proof {
                    assert forall|p: int| #[trigger] self@.bit(p) == pre.bit(p) by {}
                    lemma_pos(i as int, lz as int);
                    lemma_lowest_bit(w, (31 - lz) as u32, 0);
                    assert forall|p: int| self.num_bits <= p < 256 implies !#[trigger] self@.bit(
                        p,
                    ) by {
                        if p < 32 * (i + 1) {
                            lemma_pos(i as int, p - 32 * i);
                            lemma_lowest_bit(w, (31 - lz) as u32, (31 - (p - 32 * i)) as u32);
                        }
                    }
                }
                break;
            }
            proof {
                assert forall|p: int| 32 * i <= p < 256 implies !#[trigger] self@.bit(p) by {
                    if p < 32 * (i + 1) {
                        lemma_pos(i as int, p - 32 * i);
                        lemma_zero((31 - (p - 32 * i)) as u32);
                    }
                }
            }
        }
    }
}

} // verus!
