use crate::guid::GUID_t;
use vstd::prelude::*;

verus! {

/// A 16-byte handle for an instance; it holds a GUID's bytes.
#[derive(Copy, Clone, Debug, PartialEq, Eq, PartialOrd, Ord, Hash)]
pub struct InstanceHandle_t {
    pub value: [u8; 16],
}

impl InstanceHandle_t {
    pub const SIZE: usize = 16;

    /// The undefined handle: all bytes zero.
    pub fn c_InstanceHandle_Unknown() -> (r: Self)
        ensures
            forall|i: int| 0 <= i < 16 ==> r.value@[i] == 0,
    {
        InstanceHandle_t::new()
    }

    /// The undefined handle: all bytes zero.
    pub fn new() -> (r: Self)
        ensures
            forall|i: int| 0 <= i < 16 ==> r.value@[i] == 0,
    {
        InstanceHandle_t { value: [0u8; 16] }
    }

    /// Whether any byte is non-zero.
    pub fn isDefined(&self) -> (r: bool)
        ensures
            r == (exists|i: int| 0 <= i < 16 && self.value@[i] != 0),
    {
        let mut i: usize = 0;
        while i < 16
            invariant
                i <= 16,
                forall|k: int| 0 <= k < i ==> self.value@[k] == 0,
            decreases 16 - i,
        {
            if self.value[i] != 0 {
                return true;
            }
            i += 1;
        }
        false
    }

    /// The GUID whose bytes the handle holds: twelve of prefix, then four of
    /// entity id.
    pub fn as_guid_ref(&self) -> (r: GUID_t)
        ensures
            r.guidPrefix.value@ == self.value@.subrange(0, 12),
            r.entityId.value@ == self.value@.subrange(12, 16),
    {
        let mut guid = GUID_t::unknown();
        InstanceHandle_t::iHandle2GUID(&mut guid, self);
        guid
    }

    /// Copies the handle's bytes into `guid`.
    pub fn iHandle2GUID(guid: &mut GUID_t, ihandle: &InstanceHandle_t)
        ensures
            final(guid).guidPrefix.value@ == ihandle.value@.subrange(0, 12),
            final(guid).entityId.value@ == ihandle.value@.subrange(12, 16),
    {
        let mut i: usize = 0;
        while i < 16
            invariant
                i <= 16,
                guid.guidPrefix.value@.len() == 12,
                guid.entityId.value@.len() == 4,
                forall|k: int| 0 <= k < i && k < 12 ==> guid.guidPrefix.value@[k] == ihandle.value@[k],
                forall|k: int| 12 <= k < i ==> guid.entityId.value@[k - 12] == ihandle.value@[k],
            decreases 16 - i,
        {
            if i < 12 {
                guid.guidPrefix.value[i] = ihandle.value[i];
            } else {
                guid.entityId.value[i - 12] = ihandle.value[i];
            }
            i += 1;
        }
        proof {
            assert(guid.guidPrefix.value@ =~= ihandle.value@.subrange(0, 12));
            assert(guid.entityId.value@ =~= ihandle.value@.subrange(12, 16));
        }
    }
}

} // verus!
