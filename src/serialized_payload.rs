use vstd::prelude::*;

verus! {

/// Big-endian CDR encapsulation.
pub const CDR_BE: u16 = 0x0000;

/// Little-endian CDR encapsulation.
pub const CDR_LE: u16 = 0x0001;

/// Big-endian parameter-list CDR encapsulation.
pub const PL_CDR_BE: u16 = 0x0002;

/// Little-endian parameter-list CDR encapsulation.
pub const PL_CDR_LE: u16 = 0x0003;

/// `s` cut or zero-extended to length `n`.
pub open spec fn resized(s: Seq<u8>, n: int) -> Seq<u8> {
    if n <= s.len() {
        s.subrange(0, n)
    } else {
        s + Seq::new((n - s.len()) as nat, |i: int| 0u8)
    }
}

/// The serialized form of a sample: its encapsulation and its bytes.
#[derive(Debug)]
pub struct SerializedPayload_t {
    /// Encapsulation of the data.
    pub encapsulation: u16,
    /// Number of bytes of `data` in use.
    pub length: usize,
    pub data: Vec<u8>,
    /// Size reserved for the data.
    pub max_size: usize,
    /// Position when reading.
    pub pos: usize,
}

/// Whether two payloads hold the same encapsulation and the same bytes in
/// use.
pub open spec fn payload_eq(a: &SerializedPayload_t, b: &SerializedPayload_t) -> bool {
    &&& a.encapsulation == b.encapsulation
    &&& a.length == b.length
    &&& a.length <= a.data.len()
    &&& b.length <= b.data.len()
    &&& a.data@.subrange(0, a.length as int) == b.data@.subrange(0, b.length as int)
}

proof fn lemma_resized(old_data: Seq<u8>, new_data: Seq<u8>, n: int)
    requires
        0 <= n,
        n <= old_data.len() ==> new_data == old_data.subrange(0, n),
        n > old_data.len() ==> {
            &&& new_data.len() == n
            &&& new_data.subrange(0, old_data.len() as int) == old_data
            &&& forall|i| #![all_triggers] old_data.len() <= i < n ==> cloned::<u8>(0u8, new_data[i])
        },
    ensures
        new_data == resized(old_data, n),
{
    if n > old_data.len() {
        assert forall|i: int| 0 <= i < n implies new_data[i] == resized(old_data, n)[i] by {
            if i < old_data.len() {
                assert(new_data.subrange(0, old_data.len() as int)[i] == old_data[i]);
            } else {
                assert(cloned::<u8>(0u8, new_data[i]));
            }
        }
        assert(new_data =~= resized(old_data, n));
    }
}

impl Default for SerializedPayload_t {
    fn default() -> (r: Self)
        ensures
            r.encapsulation == CDR_BE,
            r.length == 0,
            r.data@.len() == 0,
            r.max_size == 0,
            r.pos == 0,
    {
        SerializedPayload_t { encapsulation: CDR_BE, length: 0, data: Vec::new(), max_size: 0, pos: 0 }
    }
}

impl PartialEq for SerializedPayload_t {
    fn eq(&self, other: &Self) -> (r: bool) {
        if self.encapsulation != other.encapsulation || self.length != other.length {
            return false;
        }
        if self.length > self.data.len() || other.length > other.data.len() {
            return false;
        }
        let mut n: usize = 0;
        while n < self.length
            invariant
                n <= self.length == other.length,
                self.length <= self.data.len(),
                other.length <= other.data.len(),
                self.data@.subrange(0, n as int) == other.data@.subrange(0, n as int),
            decreases self.length - n,
        {
            if self.data[n] != other.data[n] {
                proof {
                    assert(self.data@.subrange(0, self.length as int)[n as int] != other.data@.subrange(
                        0,
                        other.length as int,
                    )[n as int]);
                }
                return false;
            }
            proof {
                assert(self.data@.subrange(0, n + 1) =~= self.data@.subrange(0, n as int).push(
                    self.data@[n as int],
                ));
                assert(other.data@.subrange(0, n + 1) =~= other.data@.subrange(0, n as int).push(
                    other.data@[n as int],
                ));
            }
            n += 1;
        }
        true
    }
}

impl vstd::std_specs::cmp::PartialEqSpecImpl for SerializedPayload_t {
    open spec fn obeys_eq_spec() -> bool {
        true
    }

    open spec fn eq_spec(&self, other: &SerializedPayload_t) -> bool {
        payload_eq(self, other)
    }
}

impl SerializedPayload_t {
    pub const representation_header_size: usize = 4;

    /// Copies `serData`'s encapsulation and bytes in use. With `with_limit`,
    /// fails when they do not fit in the size reserved; without it, reserves
    /// more. The length is taken over in either case.
    pub fn copy(&mut self, serData: &SerializedPayload_t, with_limit: bool) -> (r: bool)
        requires
            serData.length <= serData.data.len(),
        ensures
            r == !(with_limit && serData.length > old(self).max_size),
            final(self).length == serData.length,
            !r ==> final(self).data == old(self).data && final(self).max_size == old(self).max_size
                && final(self).encapsulation == old(self).encapsulation,
            r ==> final(self).encapsulation == serData.encapsulation,
            r ==> final(self).max_size == vstd::math::max(
                old(self).max_size as int,
                serData.length as int,
            ),
            r && serData.length > 0 ==> final(self).data@ == serData.data@.subrange(
                0,
                serData.length as int,
            ),
            r && serData.length == 0 ==> final(self).data@ == old(self).data@,
    {
        self.length = serData.length;
        if serData.length > self.max_size {
            if with_limit {
                return false;
            } else {
                self.reserve(serData.length);
            }
        }
        self.encapsulation = serData.encapsulation;
        if self.length == 0 {
            return true;
        }
        let ghost max_size = self.max_size;
        self.data.resize(self.length, 0);
        let mut i: usize = 0;
        while i < self.length
            invariant
                self.encapsulation == serData.encapsulation,
                self.max_size == max_size,
                i <= self.length == serData.length <= serData.data.len(),
                self.data.len() == self.length,
                forall|k: int| 0 <= k < i ==> self.data@[k] == serData.data@[k],
            decreases self.length - i,
        {
            self.data.set(i, serData.data[i]);
            i += 1;
        }
        proof {
            assert(self.data@ =~= serData.data@.subrange(0, serData.length as int));
        }
        true
    }

    /// Takes `serData`'s length and encapsulation and reserves exactly that
    /// many bytes; always returns true.
    pub fn reserve_fragmented(&mut self, serData: &SerializedPayload_t) -> (r: bool)
        ensures
            r,
            final(self).length == serData.length,
            final(self).max_size == serData.length,
            final(self).encapsulation == serData.encapsulation,
            final(self).data@ == resized(old(self).data@, serData.length as int),
            final(self).pos == old(self).pos,
    {
        self.length = serData.length;
        self.max_size = serData.length;
        self.encapsulation = serData.encapsulation;
        let ghost old_data = self.data@;
        self.data.resize(self.length, 0);
        proof {
            lemma_resized(old_data, self.data@, self.length as int);
        }
        true
    }

    /// Empties the payload.
    pub fn empty(&mut self)
        ensures
            final(self).length == 0,
            final(self).encapsulation == CDR_BE,
            final(self).max_size == 0,
            final(self).data@.len() == 0,
            final(self).pos == old(self).pos,
    {
        self.length = 0;
        self.encapsulation = CDR_BE;
        self.max_size = 0;
        if !self.data.is_empty() {
            self.data.clear();
        }
    }

    /// Grows the reserved size to `new_size`, zero-filling; a smaller size
    /// changes nothing.
    pub fn reserve(&mut self, new_size: usize)
        ensures
            new_size <= old(self).max_size ==> *final(self) == *old(self),
            new_size > old(self).max_size ==> final(self).max_size == new_size,
            new_size > old(self).max_size ==> final(self).data@ == resized(
                old(self).data@,
                new_size as int,
            ),
            final(self).length == old(self).length,
            final(self).encapsulation == old(self).encapsulation,
            final(self).pos == old(self).pos,
    {
        if new_size <= self.max_size {
            return ;
        }
        let ghost old_data = self.data@;
        self.data.resize(new_size, 0);
        proof {
            lemma_resized(old_data, self.data@, new_size as int);
        }
        self.max_size = new_size;
    }
}

} // verus!
