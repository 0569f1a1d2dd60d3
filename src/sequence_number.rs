use vstd::prelude::*;

verus! {

/// 2^32, the weight of the high word.
pub open spec fn word() -> int {
    0x1_0000_0000
}

/// The largest value a sequence number can hold.
pub open spec fn max_value() -> int {
    i32::MAX * word() + u32::MAX
}

/// The smallest value a sequence number can hold.
pub open spec fn min_value() -> int {
    i32::MIN * word()
}

/// A 64-bit sequence number split into a signed high word and an unsigned
/// low word.
#[derive(Copy, Clone, Debug, PartialEq, Eq, Structural, PartialOrd, Ord)]
pub struct SequenceNumber_t {
    pub high: i32,
    pub low: u32,
}

impl SequenceNumber_t {
    /// The number the two words stand for: `high * 2^32 + low`. Ordering by
    /// this value is ordering by `(high, low)`.
    pub open spec fn value(self) -> int {
        self.high * word() + self.low
    }

    pub fn new(hi: i32, lo: u32) -> (r: Self)
        ensures
            r.high == hi,
            r.low == lo,
    {
        SequenceNumber_t { high: hi, low: lo }
    }

    /// The two words combined into 64 bits, `high` above `low`.
    pub fn to64long(&self) -> (r: u64)
        ensures
            self.high >= 0 ==> r == self.value(),
            self.high < 0 ==> r == self.value() + 0x1_0000_0000_0000_0000,
    {
        let hu: u64 = #[verifier::truncate] (self.high as u64);
        let lu: u64 = self.low as u64;
        proof {
            let h = self.high;
            assert(hu == h as u64);
            assert(h < 0 ==> (h as u64) % 0x1_0000_0000 == (h + 0x1_0000_0000) as u64) by (
            bit_vector);
            assert(h >= 0 ==> (h as u64) % 0x1_0000_0000 == h as u64) by (bit_vector);
            assert(((hu << 32u64) | lu) == (hu % 0x1_0000_0000) * 0x1_0000_0000 + lu) by (
            bit_vector)
                requires
                    lu < 0x1_0000_0000,
            ;
        }
        (hu << 32) | lu
    }

    /// Steps to the next number and returns it.
    pub fn incrememt(&mut self) -> (r: Self)
        requires
            old(self).value() < max_value(),
        ensures
            final(self).value() == old(self).value() + 1,
            r == *final(self),
    {
        self.low = self.low.wrapping_add(1);
        if self.low == 0 {
            self.high += 1;
        }
        *self
    }

    /// The "unknown" sentinel, ordered before every valid number.
    pub fn unknown() -> (r: Self)
        ensures
            r.high == -1,
            r.low == 0,
            r.value() == -word(),
    {
        SequenceNumber_t { high: -1, low: 0 }
    }

    /// Whether `s1` comes before `s2`.
    pub fn sort_seqNum(s1: Self, s2: Self) -> (r: bool)
        ensures
            r == (s1.value() < s2.value()),
    {
        s1.high < s2.high || (s1.high == s2.high && s1.low < s2.low)
    }

    /// Adds a non-negative step, carrying into the high word.
    pub fn add_assign(&mut self, inc: i32)
        requires
            inc >= 0,
            old(self).value() + inc <= max_value(),
        ensures
            final(self).value() == old(self).value() + inc,
    {
        let aux_low = self.low;
        self.low = self.low.wrapping_add(inc as u32);
        if self.low < aux_low {
            self.high += 1;
        }
    }
}

impl vstd::std_specs::ops::AddSpecImpl<u32> for SequenceNumber_t {
    open spec fn obeys_add_spec() -> bool {
        true
    }

    open spec fn add_req(self, rhs: u32) -> bool {
        self.value() + rhs <= max_value()
    }

    open spec fn add_spec(self, rhs: u32) -> SequenceNumber_t {
        let v = self.value() + rhs;
        SequenceNumber_t { high: (v / word()) as i32, low: (v % word()) as u32 }
    }
}

impl core::ops::Add<u32> for SequenceNumber_t {
    type Output = Self;

    /// Adds `inc`, carrying into the high word.
    fn add(self, inc: u32) -> (r: Self) {
        let low: u32 = self.low.wrapping_add(inc);
        let mut res = SequenceNumber_t { high: self.high, low };
        if res.low < self.low {
            res.high += 1;
        }
        res
    }
}

impl vstd::std_specs::ops::AddSpecImpl<SequenceNumber_t> for SequenceNumber_t {
    open spec fn obeys_add_spec() -> bool {
        true
    }

    open spec fn add_req(self, rhs: SequenceNumber_t) -> bool {
        &&& i32::MIN <= self.high + rhs.high
        &&& min_value() <= self.value() + rhs.value() <= max_value()
    }

    open spec fn add_spec(self, rhs: SequenceNumber_t) -> SequenceNumber_t {
        let v = self.value() + rhs.value();
        SequenceNumber_t { high: (v / word()) as i32, low: (v % word()) as u32 }
    }
}

impl core::ops::Add<SequenceNumber_t> for SequenceNumber_t {
    type Output = Self;

    /// Adds two sequence numbers, carrying from the low words into the sum of
    /// the high words.
    fn add(self, inc: SequenceNumber_t) -> (r: Self) {
        let low: u32 = self.low.wrapping_add(inc.low);
        let mut res = SequenceNumber_t { high: self.high + inc.high, low };
        if res.low < self.low {
            res.high += 1;
        }
        res
    }
}

impl vstd::std_specs::ops::SubSpecImpl<u32> for SequenceNumber_t {
    open spec fn obeys_sub_spec() -> bool {
        true
    }

    open spec fn sub_req(self, rhs: u32) -> bool {
        min_value() <= self.value() - rhs
    }

    open spec fn sub_spec(self, rhs: u32) -> SequenceNumber_t {
        let v = self.value() - rhs;
        SequenceNumber_t { high: (v / word()) as i32, low: (v % word()) as u32 }
    }
}

impl core::ops::Sub<u32> for SequenceNumber_t {
    type Output = Self;

    /// Subtracts `inc`, borrowing from the high word.
    fn sub(self, inc: u32) -> (r: Self) {
        let low: u32 = self.low.wrapping_sub(inc);
        let mut res = SequenceNumber_t { high: self.high, low };
        if inc > self.low {
            res.high -= 1;
        }
        res
    }
}

impl vstd::std_specs::ops::SubSpecImpl<SequenceNumber_t> for SequenceNumber_t {
    open spec fn obeys_sub_spec() -> bool {
        true
    }

    /// The difference is asked for only of a number and one at or before it.
    open spec fn sub_req(self, rhs: SequenceNumber_t) -> bool {
        &&& rhs.value() <= self.value()
        &&& self.high - rhs.high <= i32::MAX
    }

    open spec fn sub_spec(self, rhs: SequenceNumber_t) -> SequenceNumber_t {
        let v = self.value() - rhs.value();
        SequenceNumber_t { high: (v / word()) as i32, low: (v % word()) as u32 }
    }
}

impl core::ops::Sub<SequenceNumber_t> for SequenceNumber_t {
    type Output = Self;

    /// The gap from `subtrahend` up to `self`.
    fn sub(self, subtrahend: SequenceNumber_t) -> (r: Self) {
        let low: u32 = self.low.wrapping_sub(subtrahend.low);
        let mut res = SequenceNumber_t { high: self.high - subtrahend.high, low };
        if self.low < subtrahend.low {
            res.high -= 1;
        }
        res
    }
}

impl core::convert::From<u64> for SequenceNumber_t {
    /// Splits 64 bits into the high and the low word.
    fn from(u: u64) -> (r: Self) {
        let top: u64 = u >> 32;
        proof {
            assert(u >> 32u64 == u / 0x1_0000_0000) by (bit_vector);
            assert((u as u32) as u64 == u % 0x1_0000_0000) by (bit_vector);
        }
        SequenceNumber_t {
            high: #[verifier::truncate] (top as i32),
            low: #[verifier::truncate] (u as u32),
        }
    }
}

impl vstd::std_specs::convert::FromSpecImpl<u64> for SequenceNumber_t {
    open spec fn obeys_from_spec() -> bool {
        true
    }

    open spec fn from_spec(u: u64) -> SequenceNumber_t {
        SequenceNumber_t {
            high: #[verifier::truncate] ((u / word() as u64) as i32),
            low: (u % word() as u64) as u32,
        }
    }
}

/// The distance between two sequence numbers, as a low word.
pub struct SequenceNumberDiff {}

impl SequenceNumberDiff {
    /// The low word of `a - b`.
    pub fn diff(a: SequenceNumber_t, b: SequenceNumber_t) -> (r: u32)
        requires
            b.value() <= a.value(),
            a.high - b.high <= i32::MAX,
        ensures
            r == (a.value() - b.value()) % word(),
    {
        let diff = a - b;
        diff.low
    }
}

} // verus!
