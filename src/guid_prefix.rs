use vstd::prelude::*;

verus! {

/// The first twelve bytes of a GUID: the participant that owns an entity.
#[derive(Copy, Clone, Debug, PartialEq, Eq, PartialOrd, Ord, Hash)]
pub struct GuidPrefix_t {
    pub value: [u8; 12],
}

impl GuidPrefix_t {
    pub const SIZE: usize = 12;

    /// The all-zero prefix.
    pub fn c_GuidPrefix_Unknown() -> (r: Self)
        ensures
            forall|i: int| 0 <= i < 12 ==> r.value@[i] == 0,
    {
        GuidPrefix_t::unknown()
    }

    /// The all-zero prefix.
    pub fn unknown() -> (r: Self)
        ensures
            forall|i: int| 0 <= i < 12 ==> r.value@[i] == 0,
    {
        GuidPrefix_t { value: [0u8; 12] }
    }
}

impl Default for GuidPrefix_t {
    fn default() -> (r: Self)
        ensures
            forall|i: int| 0 <= i < 12 ==> r.value@[i] == 0,
    {
        GuidPrefix_t::unknown()
    }
}

} // verus!
