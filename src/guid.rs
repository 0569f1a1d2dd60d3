use crate::entity_id::EntityId_t;
use crate::guid_prefix::GuidPrefix_t;
use vstd::prelude::*;

verus! {

/// Whether the first `n` bytes of two prefixes agree.
fn same_leading_bytes(a: &[u8; 12], b: &[u8; 12], n: usize) -> (r: bool)
    requires
        n <= 12,
    ensures
        r == (a@.subrange(0, n as int) == b@.subrange(0, n as int)),
{
    let mut i: usize = 0;
    while i < n
        invariant
            i <= n <= 12,
            a@.subrange(0, i as int) == b@.subrange(0, i as int),
        decreases n - i,
    {
        if a[i] != b[i] {
            proof {
                assert(a@.subrange(0, n as int)[i as int] != b@.subrange(0, n as int)[i as int]);
            }
            return false;
        }
        proof {
            assert(a@.subrange(0, i + 1) =~= a@.subrange(0, i as int).push(a@[i as int]));
            assert(b@.subrange(0, i + 1) =~= b@.subrange(0, i as int).push(b@[i as int]));
        }
        i += 1;
    }
    true
}

/// A globally unique entity id: a participant prefix and an entity id.
#[derive(Copy, Clone, Debug, PartialEq, Eq, PartialOrd, Ord, Hash)]
pub struct GUID_t {
    pub guidPrefix: GuidPrefix_t,
    pub entityId: EntityId_t,
}

impl GUID_t {
    /// The unknown GUID: all bytes zero.
    pub fn c_Guid_Unknown() -> (r: Self)
        ensures
            forall|i: int| 0 <= i < 12 ==> r.guidPrefix.value@[i] == 0,
            r.entityId.value@ == seq![0u8, 0u8, 0u8, 0u8],
    {
        GUID_t::unknown()
    }

    /// The unknown GUID: all bytes zero.
    pub fn unknown() -> (r: Self)
        ensures
            forall|i: int| 0 <= i < 12 ==> r.guidPrefix.value@[i] == 0,
            r.entityId.value@ == seq![0u8, 0u8, 0u8, 0u8],
    {
        GUID_t { guidPrefix: GuidPrefix_t::unknown(), entityId: EntityId_t::unknown() }
    }

    /// Whether both GUIDs share the host part of the prefix, its first four
    /// bytes.
    pub fn is_on_same_host_as(&self, other_guid: &GUID_t) -> (r: bool)
        ensures
            r == (self.guidPrefix.value@.subrange(0, 4) == other_guid.guidPrefix.value@.subrange(
                0,
                4,
            )),
    {
        same_leading_bytes(&self.guidPrefix.value, &other_guid.guidPrefix.value, 4)
    }

    /// Whether both GUIDs share the process part of the prefix, its first
    /// eight bytes.
    pub fn is_on_same_process_as(&self, other_guid: &GUID_t) -> (r: bool)
        ensures
            r == (self.guidPrefix.value@.subrange(0, 8) == other_guid.guidPrefix.value@.subrange(
                0,
                8,
            )),
    {
        same_leading_bytes(&self.guidPrefix.value, &other_guid.guidPrefix.value, 8)
    }

    /// Whether the entity is a built-in one: its kind byte is at least 0xC0.
    pub fn is_builtin(&self) -> (r: bool)
        ensures
            r == (self.entityId.value@[3] >= 0xC0),
    {
        self.entityId.value[3] >= 0xC0u8
    }
}

} // verus!
