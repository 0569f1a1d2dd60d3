use crate::locator::Locator_t;
use crate::text::{dec_str, hex_str, push_dec, push_hex};
use vstd::prelude::*;
use vstd::string::StringExecFns;

verus! {

/// The dotted text of the IPv4 address held in the last four bytes.
pub open spec fn ipv4_text(a: Seq<u8>) -> Seq<char> {
    dec_str(a[12] as nat) + seq!['.'] + dec_str(a[13] as nat) + seq!['.'] + dec_str(
        a[14] as nat,
    ) + seq!['.'] + dec_str(a[15] as nat)
}

/// The 16-bit group `k` of an IPv6 address, big-endian.
pub open spec fn group(a: Seq<u8>, k: int) -> nat {
    (a[2 * k] * 256 + a[2 * k + 1]) as nat
}

/// Where a left-to-right scan for runs of zero groups stands: whether it is
/// inside a run, the run it is in (start as a byte index, length in groups),
/// and the longest finished run so far.
struct ZeroScan {
    pub compress: bool,
    pub act_index: int,
    pub act_size: int,
    pub max_index: int,
    pub max_size: int,
}

/// The scan after the first `k` groups.
spec fn zero_scan(a: Seq<u8>, k: int) -> ZeroScan
    decreases k,
{
    if k <= 0 {
        ZeroScan { compress: false, act_index: 0, act_size: 0, max_index: 0, max_size: 0 }
    } else {
        let st = zero_scan(a, k - 1);
        if group(a, k - 1) == 0 {
            if st.compress {
                ZeroScan { act_size: st.act_size + 1, ..st }
            } else {
                ZeroScan { compress: true, act_index: 2 * (k - 1), act_size: 1, ..st }
            }
        } else if st.compress && st.act_size > st.max_size {
            ZeroScan {
                compress: false,
                max_index: st.act_index,
                max_size: st.act_size,
                ..st
            }
        } else {
            ZeroScan { compress: false, ..st }
        }
    }
}

/// What the scan picks: its start as a byte index and its length in groups.
spec fn zero_run(a: Seq<u8>) -> (int, int) {
    let st = zero_scan(a, 8);
    if st.compress && st.act_size > st.max_size {
        (st.act_index, st.act_size)
    } else {
        (st.max_index, st.max_size)
    }
}

/// The text of group `k`: in hexadecimal followed by `:` (but the last);
/// inside the collapsed run, nothing, but a `:` for the run's last group.
pub open spec fn group_text(a: Seq<u8>, index: int, size: int, k: int) -> Seq<char> {
    if size >= 2 && index <= 2 * k < index + 2 * size {
        if 2 * k == index + 2 * (size - 1) {
            seq![':']
        } else {
            seq![]
        }
    } else if k != 7 {
        hex_str(group(a, k)) + seq![':']
    } else {
        hex_str(group(a, k))
    }
}

/// The text of the first `k` groups.
pub open spec fn groups_text(a: Seq<u8>, index: int, size: int, k: int) -> Seq<char>
    decreases k,
{
    if k <= 0 {
        seq![]
    } else {
        groups_text(a, index, size, k - 1) + group_text(a, index, size, k - 1)
    }
}

/// Whether groups `i` up to `i + m` (excluded) are all zero.
pub open spec fn zero_groups(a: Seq<u8>, i: int, m: int) -> bool {
    &&& 0 <= i
    &&& 0 <= m
    &&& i + m <= 8
    &&& forall|j: int| i <= j < i + m ==> #[trigger] group(a, j) == 0
}

/// Whether groups `g` up to `g + n` are the longest run of zero groups, and
/// the first of the runs that long.
pub open spec fn is_longest_zero_run(a: Seq<u8>, g: int, n: int) -> bool {
    &&& zero_groups(a, g, n)
    &&& forall|i: int, m: int| #[trigger] zero_groups(a, i, m) ==> m <= n
    &&& forall|i: int| 0 <= i < g ==> !#[trigger] zero_groups(a, i, n)
}

/// The text of an IPv6 address as RFC 5952 recommends: no leading zeros,
/// lower case, and the longest run of two or more zero groups (the first of
/// equal ones) collapsed to `::`.
pub open spec fn ipv6_text(a: Seq<u8>) -> Seq<char> {
    let (g, n) = choose|g: int, n: int| is_longest_zero_run(a, g, n);
    let lead: Seq<char> = if n >= 2 && g == 0 {
        seq![':']
    } else {
        seq![]
    };
    lead + groups_text(a, 2 * g, n, 8)
}

/// What the scan knows after `k` groups: the run it is in ends at `k` and
/// starts after a non-zero group; the longest finished run lies before that
/// run, is at least as long as every run before it, and is the first of
/// that length.
spec fn scan_inv(a: Seq<u8>, k: int) -> bool {
    let st = zero_scan(a, k);
    let c = if st.compress {
        st.act_index / 2
    } else {
        k
    };
    let mg = st.max_index / 2;
    let ms = st.max_size;
    &&& st.act_index % 2 == 0
    &&& st.max_index % 2 == 0
    &&& st.compress ==> 0 <= c < k && st.act_size == k - c && zero_groups(a, c, k - c) && (c == 0
        || group(a, c - 1) != 0)
    &&& !st.compress ==> (k == 0 || group(a, k - 1) != 0)
    &&& zero_groups(a, mg, ms)
    &&& mg + ms <= c
    &&& forall|i: int, m: int| #[trigger] zero_groups(a, i, m) && i + m <= c ==> m <= ms
    &&& forall|i: int| 0 <= i < mg ==> !#[trigger] zero_groups(a, i, ms)
}

/// A run of zero groups that reaches past `c` starts at `c` or later, when
/// the group before `c` is not zero.
proof fn lemma_run_after(a: Seq<u8>, c: int, i: int, m: int)
    requires
        zero_groups(a, i, m),
        c == 0 || group(a, c - 1) != 0,
        i + m > c,
        0 <= c,
    ensures
        i >= c,
{
    if i < c {
        assert(group(a, c - 1) == 0);
    }
}

proof fn lemma_scan(a: Seq<u8>, k: int)
    requires
        a.len() == 16,
        0 <= k <= 8,
    ensures
        scan_inv(a, k),
    decreases k,
{
    if k > 0 {
        lemma_scan(a, k - 1);
        let p = zero_scan(a, k - 1);
        let st = zero_scan(a, k);
        let c0 = if p.compress {
            p.act_index / 2
        } else {
            k - 1
        };
        let c = if st.compress {
            st.act_index / 2
        } else {
            k
        };
        let mg = st.max_index / 2;
        let ms = st.max_size;
        if group(a, k - 1) == 0 {
            assert(c == c0);
            assert(zero_groups(a, c, k - c)) by {
                assert forall|j: int| c <= j < k implies #[trigger] group(a, j) == 0 by {
                    if j < k - 1 {
                        assert(zero_groups(a, c0, k - 1 - c0));
                    }
                }
            }
        } else {
            assert(c == k);
            assert forall|i: int, m: int| #[trigger] zero_groups(a, i, m) && i + m <= c implies m
                <= ms by {
                if i + m == k && m > 0 {
                    assert(group(a, k - 1) == 0);
                }
                if i + m > c0 {
                    lemma_run_after(a, c0, i, m);
                    if p.compress {
                        assert(m <= p.act_size);
                    }
                }
            }
            if p.compress && p.act_size > p.max_size {
                assert forall|i: int| 0 <= i < mg implies !#[trigger] zero_groups(a, i, ms) by {
                    if zero_groups(a, i, ms) {
                        if i + ms > c0 {
                            lemma_run_after(a, c0, i, ms);
                        }
                    }
                }
            }
        }
    }
}

/// The scan picks the longest run of zero groups, the first of the runs that
/// long.
proof fn lemma_zero_run(a: Seq<u8>)
    requires
        a.len() == 16,
    ensures
        zero_run(a).0 % 2 == 0,
        0 <= zero_run(a).0,
        is_longest_zero_run(a, zero_run(a).0 / 2, zero_run(a).1),
{
    lemma_scan(a, 8);
    let st = zero_scan(a, 8);
    let c = if st.compress {
        st.act_index / 2
    } else {
        8
    };
    let (index, n) = zero_run(a);
    let g = index / 2;
    assert forall|i: int, m: int| #[trigger] zero_groups(a, i, m) implies m <= n by {
        if i + m > c {
            lemma_run_after(a, c, i, m);
        }
    }
    if st.compress && st.act_size > st.max_size {
        assert forall|i: int| 0 <= i < g implies !#[trigger] zero_groups(a, i, n) by {
            if zero_groups(a, i, n) && i + n > c {
                lemma_run_after(a, c, i, n);
            }
        }
    }
}

/// There is one longest run of zero groups that comes first.
proof fn lemma_longest_unique(a: Seq<u8>, g1: int, n1: int, g2: int, n2: int)
    requires
        is_longest_zero_run(a, g1, n1),
        is_longest_zero_run(a, g2, n2),
    ensures
        g1 == g2,
        n1 == n2,
{
    assert(n1 <= n2 && n2 <= n1);
    if g1 < g2 {
        assert(!zero_groups(a, g1, n2));
    }
    if g2 < g1 {
        assert(!zero_groups(a, g2, n1));
    }
}

/// The text of the IPv4 address in the locator's last four bytes.
pub fn toIPv4string(locator: &Locator_t) -> (r: String)
    ensures
        r@ == ipv4_text(locator.address@),
{
    let mut s = String::new();
    proof {
        reveal_strlit(".");
    }
    push_dec(&mut s, locator.address[12] as u32);
    s.append(".");
    push_dec(&mut s, locator.address[13] as u32);
    s.append(".");
    push_dec(&mut s, locator.address[14] as u32);
    s.append(".");
    push_dec(&mut s, locator.address[15] as u32);
    proof {
        assert(s@ =~= ipv4_text(locator.address@));
    }
    s
}

/// The text of the locator's IPv6 address.
pub fn toIPv6string(locator: &Locator_t) -> (r: String)
    ensures
        r@ == ipv6_text(locator.address@),
{
    let ghost a = locator.address@;
    let mut max_block_index: usize = 0;
    let mut max_block_size: usize = 0;
    let mut actual_block_index: usize = 0;
    let mut actual_block_size: usize = 0;
    let mut ss: String = String::new();
    let mut compress: bool = false;
    let mut i: usize = 0;
    while i != 16
        invariant
            i <= 16,
            i % 2 == 0,
            a == locator.address@,
            zero_scan(a, i as int / 2) == (ZeroScan {
                compress,
                act_index: actual_block_index as int,
                act_size: actual_block_size as int,
                max_index: max_block_index as int,
                max_size: max_block_size as int,
            }),
            actual_block_size <= i / 2,
            max_block_size <= i / 2,
            actual_block_index <= 16,
            max_block_index <= 16,
            actual_block_index % 2 == 0,
            max_block_index % 2 == 0,
        decreases 16 - i,
    {
        proof {
            assert(i / 2 + 1 == (i + 2) / 2);
        }
        if locator.address[i] == 0 && locator.address[i + 1] == 0 {
            if compress {
                actual_block_size += 1;
            } else {
                compress = true;
                actual_block_index = i;
                actual_block_size = 1;
            }
        } else {
            if compress {
                compress = false;
                if actual_block_size > max_block_size {
                    max_block_index = actual_block_index;
                    max_block_size = actual_block_size;
                }
            }
        }
        i += 2;
    }
    if compress && actual_block_size > max_block_size {
        max_block_index = actual_block_index;
        max_block_size = actual_block_size;
    }
    let ghost index = max_block_index as int;
    let ghost size = max_block_size as int;
    proof {
        assert((index, size) == zero_run(a));
        lemma_zero_run(a);
        let (g, n) = choose|g: int, n: int| is_longest_zero_run(a, g, n);
        lemma_longest_unique(a, g, n, index / 2, size);
        assert(2 * (index / 2) == index);
    }
    compress = max_block_size >= 2;
    proof {
        reveal_strlit(":");
    }
    if compress && max_block_index == 0 {
        ss.append(":");
    }
    let ghost lead = ss@;
    i = 0;
    while i != 16
        invariant
            i <= 16,
            i % 2 == 0,
            a == locator.address@,
            compress == (size >= 2),
            ss@ == lead + groups_text(a, index, size, i as int / 2),
            max_block_index == index,
            0 <= size <= 8,
            !compress || i < index ==> max_block_size == size,
            compress && index <= i ==> max_block_size == if size - (i - index) / 2 > 0 {
                size - (i - index) / 2
            } else {
                0
            },
            index % 2 == 0,
        decreases 16 - i,
    {
        let ghost k = i as int / 2;
        proof {
            reveal_strlit(":");
            assert(2 * k == i);
            assert((i + 2) / 2 == k + 1);
            assert(groups_text(a, index, size, k + 1) == groups_text(a, index, size, k)
                + group_text(a, index, size, k));
            if compress && index <= i {
                assert((i - index) / 2 * 2 == i - index);
            }
        }
        if compress && i >= max_block_index && max_block_size > 0 {
            max_block_size -= 1;
            if max_block_size == 0 {
                ss.append(":");
            }
            proof {
                assert(size >= 2 && index <= 2 * k < index + 2 * size);
                assert(group_text(a, index, size, k) == if 2 * k == index + 2 * (size - 1) {
                    seq![':']
                } else {
                    Seq::<char>::empty()
                });
                assert(ss@ =~= lead + groups_text(a, index, size, k + 1));
            }
            i += 2;
            continue ;
        }
        let hi: u32 = locator.address[i] as u32;
        let lo: u32 = locator.address[i + 1] as u32;
        proof {
            assert((hi << 8u32) + lo == hi * 256 + lo) by (bit_vector)
                requires
                    hi < 256,
                    lo < 256,
            ;
        }
        let field: u32 = (hi << 8) + lo;
        push_hex(&mut ss, field);
        if i != 14 {
            ss.append(":");
        }
        proof {
            assert(!(size >= 2 && index <= 2 * k < index + 2 * size));
            assert(group(a, k) == field);
            assert(ss@ =~= lead + groups_text(a, index, size, k + 1));
        }
        i += 2;
    }
    proof {
        assert(ss@ =~= ipv6_text(a));
    }
    ss
}

} // verus!
