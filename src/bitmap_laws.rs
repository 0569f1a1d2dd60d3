use crate::bitmap::{
    add_post, add_range_post, base_update_post, bitmap_set_post, remove_post, BitmapView,
};
use crate::bits::{lemma_pos, lemma_word_ext, lsb_set};
use vstd::prelude::*;

verus! {

/// Two well-formed views with the same base and the same bits are equal.
pub proof fn lemma_view_ext(a: BitmapView, b: BitmapView)
    requires
        a.wf(),
        b.wf(),
        a.base == b.base,
        forall|p: int| 0 <= p < 256 ==> #[trigger] a.bit(p) == b.bit(p),
    ensures
        a == b,
{
    assert forall|k: int| 0 <= k < 8 implies a.words[k] == b.words[k] by {
        assert forall|s: u32| s < 32 implies lsb_set(a.words[k], s) == lsb_set(b.words[k], s) by {
            let j = 31 - s;
            lemma_pos(k, j);
            assert(a.bit(32 * k + j) == b.bit(32 * k + j));
        }
        lemma_word_ext(a.words[k], b.words[k]);
    }
    assert(a.words =~= b.words);
    if a.num_bits < b.num_bits {
        assert(b.bit(b.num_bits - 1));
        assert(!a.bit(b.num_bits - 1));
    }
    if b.num_bits < a.num_bits {
        assert(a.bit(a.num_bits - 1));
        assert(!b.bit(a.num_bits - 1));
    }
}

/// Adding an item of the window makes it present; adding one outside the
/// window returns false and changes nothing.
pub proof fn law_add_then_is_set(before: BitmapView, item: u32, r: bool, after: BitmapView)
    requires
        before.wf(),
        add_post(before, item, r, after),
    ensures
        before.in_window(item as int) ==> r && after.contains(item as int),
        !before.in_window(item as int) ==> !r && after == before,
{
    if before.in_window(item as int) {
        assert(after.bit(item - before.base));
    }
}

/// Adding the same item twice leaves what adding it once does.
pub proof fn law_add_idempotent(
    v0: BitmapView,
    item: u32,
    r1: bool,
    v1: BitmapView,
    r2: bool,
    v2: BitmapView,
)
    requires
        v0.wf(),
        add_post(v0, item, r1, v1),
        add_post(v1, item, r2, v2),
    ensures
        v2 == v1,
        r2 == r1,
{
    if r1 {
        assert(v1.bit(item - v0.base));
        assert forall|p: int| 0 <= p < 256 implies #[trigger] v1.bit(p) == v2.bit(p) by {}
        lemma_view_ext(v1, v2);
    }
}

/// Adding an item at or above every item held makes it the maximum.
pub proof fn law_add_max(before: BitmapView, item: u32, r: bool, after: BitmapView)
    requires
        before.wf(),
        add_post(before, item, r, after),
        before.in_window(item as int),
        forall|i: int| #[trigger] before.contains(i) ==> i <= item,
    ensures
        after.num_bits > 0,
        after.max_item() == item,
{
    if before.num_bits > 0 {
        assert(before.contains(before.base + before.num_bits - 1));
    }
}

/// Loading what `bitmap_get` exports, `num_bits` and the words, gives the
/// same range back.
pub proof fn law_round_trip(v: BitmapView, after: BitmapView)
    requires
        v.wf(),
        bitmap_set_post(v, v.num_bits, v.words, after),
    ensures
        after == v,
        after.items() == v.items(),
        after.max_item() == v.max_item(),
{
    assert forall|p: int| 0 <= p < 256 implies #[trigger] after.bit(p) == v.bit(p) by {
        if p >= v.num_bits {
            assert(!v.bit(p));
        }
    }
    lemma_view_ext(after, v);
}

/// `add_range(from, to)` adds exactly the items of `[from, to)` that lie in
/// the window.
pub proof fn law_add_range_items(before: BitmapView, from: u32, to: u32, after: BitmapView)
    requires
        before.wf(),
        add_range_post(before, from, to, after),
    ensures
        after.items() == before.items().union(
            Set::new(|i: int| from <= i < to && before.in_window(i)),
        ),
{
    assert(after.items() =~= before.items().union(
        Set::new(|i: int| from <= i < to && before.in_window(i)),
    )) by {
        assert forall|i: int| after.items().contains(i) == (before.contains(i) || (from <= i < to
            && before.in_window(i))) by {
            if before.in_window(i) {
                assert(after.bit(i - before.base) == (before.bit(i - before.base) || (from <= i
                    < to)));
            }
        }
    }
}

/// An empty range adds nothing.
pub proof fn law_add_range_empty(before: BitmapView, from: u32, to: u32, after: BitmapView)
    requires
        before.wf(),
        from >= to,
        add_range_post(before, from, to, after),
    ensures
        after == before,
{
    assert forall|p: int| 0 <= p < 256 implies #[trigger] after.bit(p) == before.bit(p) by {}
    lemma_view_ext(after, before);
}

/// `add_range(from, to)` is `add_range(from, to - 1)` followed by
/// `add(to - 1)`: by induction, it is `add` on every item of the range.
pub proof fn law_add_range_step(
    v0: BitmapView,
    from: u32,
    to: u32,
    v1: BitmapView,
    r: bool,
    v2: BitmapView,
    v3: BitmapView,
)
    requires
        v0.wf(),
        from < to,
        add_range_post(v0, from, (to - 1) as u32, v1),
        add_post(v1, (to - 1) as u32, r, v2),
        add_range_post(v0, from, to, v3),
    ensures
        v3 == v2,
{
    assert forall|p: int| 0 <= p < 256 implies #[trigger] v3.bit(p) == v2.bit(p) by {}
    lemma_view_ext(v3, v2);
}

/// After `remove(item)` the item is absent; when it was the maximum, the new
/// maximum is the highest item left, or the range is empty.
pub proof fn law_remove(before: BitmapView, item: u32, after: BitmapView)
    requires
        before.wf(),
        remove_post(before, item, after),
    ensures
        !after.contains(item as int),
        forall|i: int| #[trigger] after.contains(i) == (before.contains(i) && i != item),
        before.num_bits > 0 && item == before.max_item() ==> {
            &&& after.num_bits == 0 <==> (forall|i: int| #[trigger]
                before.contains(i) ==> i == item)
            &&& after.num_bits > 0 ==> after.contains(after.max_item())
            &&& after.num_bits > 0 ==> forall|i: int| #[trigger]
                before.contains(i) && i != item ==> i <= after.max_item()
        },
{
    assert forall|i: int| #[trigger] after.contains(i) == (before.contains(i) && i != item) by {
        if before.in_window(i) {
            assert(after.bit(i - before.base) == (before.bit(i - before.base) && i != item));
        }
    }
    if before.num_bits > 0 && item == before.max_item() {
        if after.num_bits == 0 {
            assert forall|i: int| #[trigger] before.contains(i) implies i == item by {
                if i != item {
                    assert(after.contains(i));
                    assert(!after.bit(i - after.base));
                }
            }
        } else {
            assert(after.contains(after.max_item()));
            assert(after.max_item() != item);
            assert forall|i: int| #[trigger] before.contains(i) && i != item implies i
                <= after.max_item() by {
                assert(after.contains(i));
                if i > after.max_item() {
                    assert(!after.bit(i - after.base));
                }
            }
        }
    }
}

/// With one item held, at the base, moving the base down by up to 255 and
/// back keeps that item as the maximum throughout, and restores the range.
pub proof fn law_slide_back(v0: BitmapView, k: u32, v1: BitmapView, v2: BitmapView)
    requires
        v0.wf(),
        forall|i: int| #[trigger] v0.contains(i) <==> i == v0.base,
        k <= 255,
        k <= v0.base,
        base_update_post(v0, (v0.base - k) as u32, v1),
        base_update_post(v1, v0.base, v2),
    ensures
        v1.num_bits > 0,
        v1.max_item() == v0.base,
        v2.num_bits > 0,
        v2.max_item() == v0.base,
        v2 == v0,
{
    let b = v0.base as int;
    assert(v0.contains(b));
    assert forall|p: int| #[trigger] v1.bit(p) == (p == k) by {
        if 0 <= p < 256 {
            assert(v1.bit(p) == v0.contains(b - k + p));
        }
    }
    assert(v1.num_bits == k + 1) by {
        if v1.num_bits <= k {
            assert(!v1.bit(k as int));
        }
        if v1.num_bits > k + 1 {
            assert(v1.bit(v1.num_bits - 1));
        }
    }
    assert forall|p: int| #[trigger] v2.bit(p) == (p == 0) by {
        if 0 <= p < 256 {
            assert(v2.bit(p) == v1.contains(b + p));
            assert(v1.contains(b + p) == v1.bit(b + p - (b - k)));
        }
    }
    assert(v0.bit(0));
    assert forall|p: int| 0 <= p < 256 implies #[trigger] v2.bit(p) == v0.bit(p) by {
        assert(v0.bit(p) == v0.contains(b + p));
    }
    lemma_view_ext(v2, v0);
}

} // verus!
