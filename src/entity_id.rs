use vstd::prelude::*;

verus! {

/// The four bytes of `x`, most significant first.
pub open spec fn be_bytes(x: u32) -> Seq<u8> {
    seq![
        (x / 0x100_0000) as u8,
        (x / 0x1_0000 % 0x100) as u8,
        (x / 0x100 % 0x100) as u8,
        (x % 0x100) as u8,
    ]
}

/// The four bytes of `x`, least significant first.
pub open spec fn le_bytes(x: u32) -> Seq<u8> {
    seq![
        (x % 0x100) as u8,
        (x / 0x100 % 0x100) as u8,
        (x / 0x1_0000 % 0x100) as u8,
        (x / 0x100_0000) as u8,
    ]
}

/// Relies on byteorder's `LittleEndian::write_u32`: writes the four bytes of
/// `n`, least significant first, into the first four bytes of the buffer.
#[verifier::external_body]
fn write_u32_le(buf: &mut [u8; 4], n: u32)
    ensures
        final(buf)@ == le_bytes(n),
{
    <byteorder::LittleEndian as byteorder::ByteOrder>::write_u32(buf, n)
}

/// The last four bytes of a GUID: an entity within its participant.
#[derive(Copy, Clone, Debug, PartialEq, Eq, PartialOrd, Ord, Hash)]
pub struct EntityId_t {
    pub value: [u8; 4],
}

impl EntityId_t {
    pub const SIZE: usize = 4;

    pub const ENTITYID_UNKNOWN: u32 = 0x00000000;

    pub const ENTITYID_RTPSParticipant: u32 = 0x000001c1;

    pub const ENTITYID_SEDP_BUILTIN_TOPIC_WRITER: u32 = 0x000002c2;

    pub const ENTITYID_SEDP_BUILTIN_TOPIC_READER: u32 = 0x000002c7;

    pub const ENTITYID_SEDP_BUILTIN_PUBLICATIONS_WRITER: u32 = 0x000003c2;

    pub const ENTITYID_SEDP_BUILTIN_PUBLICATIONS_READER: u32 = 0x000003c7;

    pub const ENTITYID_SEDP_BUILTIN_SUBSCRIPTIONS_WRITER: u32 = 0x000004c2;

    pub const ENTITYID_SEDP_BUILTIN_SUBSCRIPTIONS_READER: u32 = 0x000004c7;

    pub const ENTITYID_SPDP_BUILTIN_RTPSParticipant_WRITER: u32 = 0x000100c2;

    pub const ENTITYID_SPDP_BUILTIN_RTPSParticipant_READER: u32 = 0x000100c7;

    pub const ENTITYID_P2P_BUILTIN_RTPSParticipant_MESSAGE_WRITER: u32 = 0x000200C2;

    pub const ENTITYID_P2P_BUILTIN_RTPSParticipant_MESSAGE_READER: u32 = 0x000200C7;

    pub const ENTITYID_P2P_BUILTIN_PARTICIPANT_STATELESS_WRITER: u32 = 0x000201C3;

    pub const ENTITYID_P2P_BUILTIN_PARTICIPANT_STATELESS_READER: u32 = 0x000201C4;

    pub const ENTITYID_TL_SVC_REQ_WRITER: u32 = 0x000300C3;

    pub const ENTITYID_TL_SVC_REQ_READER: u32 = 0x000300C4;

    pub const ENTITYID_TL_SVC_REPLY_WRITER: u32 = 0x000301C3;

    pub const ENTITYID_TL_SVC_REPLY_READER: u32 = 0x000301C4;

    pub const ENTITYID_SEDP_BUILTIN_PUBLICATIONS_SECURE_WRITER: u32 = 0xff0003c2;

    pub const ENTITYID_SEDP_BUILTIN_PUBLICATIONS_SECURE_READER: u32 = 0xff0003c7;

    pub const ENTITYID_SEDP_BUILTIN_SUBSCRIPTIONS_SECURE_WRITER: u32 = 0xff0004c2;

    pub const ENTITYID_SEDP_BUILTIN_SUBSCRIPTIONS_SECURE_READER: u32 = 0xff0004c7;

    pub const ENTITYID_P2P_BUILTIN_PARTICIPANT_MESSAGE_SECURE_WRITER: u32 = 0xff0200c2;

    pub const ENTITYID_P2P_BUILTIN_PARTICIPANT_MESSAGE_SECURE_READER: u32 = 0xff0200c7;

    pub const ENTITYID_P2P_BUILTIN_PARTICIPANT_VOLATILE_MESSAGE_SECURE_WRITER: u32 = 0xff0202C3;

    pub const ENTITYID_P2P_BUILTIN_PARTICIPANT_VOLATILE_MESSAGE_SECURE_READER: u32 = 0xff0202C4;

    pub const ENTITYID_SPDP_RELIABLE_BUILTIN_PARTICIPANT_SECURE_WRITER: u32 = 0xff0101c2;

    pub const ENTITYID_SPDP_RELIABLE_BUILTIN_PARTICIPANT_SECURE_READER: u32 = 0xff0101c7;

    pub const ENTITYID_DS_SERVER_VIRTUAL_WRITER: u32 = 0x00030073;

    pub const ENTITYID_DS_SERVER_VIRTUAL_READER: u32 = 0x00030074;

    /// The id whose bytes are `a`, `b`, `c`, `d`.
    pub fn from_bytes(a: u8, b: u8, c: u8, d: u8) -> (r: EntityId_t)
        ensures
            r.value@ == seq![a, b, c, d],
    {
        let r = EntityId_t { value: [a, b, c, d] };
        proof {
            assert(r.value@ =~= seq![a, b, c, d]);
        }
        r
    }

    pub fn c_EntityId_Unknown() -> (r: EntityId_t)
        ensures
            r.value@ == seq![0x00u8, 0x00u8, 0x00u8, 0x00u8],
    {
        EntityId_t::from_bytes(0x00, 0x00, 0x00, 0x00)
    }

    pub fn c_EntityId_SPDPReader() -> (r: EntityId_t)
        ensures
            r.value@ == seq![0x00u8, 0x01u8, 0x00u8, 0xc7u8],
    {
        EntityId_t::from_bytes(0x00, 0x01, 0x00, 0xc7)
    }

    pub fn c_EntityId_SPDPWriter() -> (r: EntityId_t)
        ensures
            r.value@ == seq![0x00u8, 0x01u8, 0x00u8, 0xc2u8],
    {
        EntityId_t::from_bytes(0x00, 0x01, 0x00, 0xc2)
    }

    pub fn c_EntityId_SEDPPubWriter() -> (r: EntityId_t)
        ensures
            r.value@ == seq![0x00u8, 0x00u8, 0x03u8, 0xc2u8],
    {
        EntityId_t::from_bytes(0x00, 0x00, 0x03, 0xc2)
    }

    pub fn c_EntityId_SEDPPubReader() -> (r: EntityId_t)
        ensures
            r.value@ == seq![0x00u8, 0x00u8, 0x03u8, 0xc7u8],
    {
        EntityId_t::from_bytes(0x00, 0x00, 0x03, 0xc7)
    }

    pub fn c_EntityId_SEDPSubWriter() -> (r: EntityId_t)
        ensures
            r.value@ == seq![0x00u8, 0x00u8, 0x04u8, 0xc2u8],
    {
        EntityId_t::from_bytes(0x00, 0x00, 0x04, 0xc2)
    }

    pub fn c_EntityId_SEDPSubReader() -> (r: EntityId_t)
        ensures
            r.value@ == seq![0x00u8, 0x00u8, 0x04u8, 0xc7u8],
    {
        EntityId_t::from_bytes(0x00, 0x00, 0x04, 0xc7)
    }

    pub fn c_EntityId_RTPSParticipant() -> (r: EntityId_t)
        ensures
            r.value@ == seq![0x00u8, 0x00u8, 0x01u8, 0xc1u8],
    {
        EntityId_t::from_bytes(0x00, 0x00, 0x01, 0xc1)
    }

    pub fn c_EntityId_WriterLiveliness() -> (r: EntityId_t)
        ensures
            r.value@ == seq![0x00u8, 0x02u8, 0x00u8, 0xc2u8],
    {
        EntityId_t::from_bytes(0x00, 0x02, 0x00, 0xc2)
    }

    pub fn c_EntityId_ReaderLiveliness() -> (r: EntityId_t)
        ensures
            r.value@ == seq![0x00u8, 0x02u8, 0x00u8, 0xc7u8],
    {
        EntityId_t::from_bytes(0x00, 0x02, 0x00, 0xc7)
    }

    pub fn participant_stateless_message_writer_entity_id() -> (r: EntityId_t)
        ensures
            r.value@ == seq![0x00u8, 0x02u8, 0x01u8, 0xc3u8],
    {
        EntityId_t::from_bytes(0x00, 0x02, 0x01, 0xc3)
    }

    pub fn participant_stateless_message_reader_entity_id() -> (r: EntityId_t)
        ensures
            r.value@ == seq![0x00u8, 0x02u8, 0x01u8, 0xc4u8],
    {
        EntityId_t::from_bytes(0x00, 0x02, 0x01, 0xc4)
    }

    pub fn c_EntityId_TypeLookup_request_writer() -> (r: EntityId_t)
        ensures
            r.value@ == seq![0x00u8, 0x03u8, 0x00u8, 0xc3u8],
    {
        EntityId_t::from_bytes(0x00, 0x03, 0x00, 0xc3)
    }

    pub fn c_EntityId_TypeLookup_request_reader() -> (r: EntityId_t)
        ensures
            r.value@ == seq![0x00u8, 0x03u8, 0x00u8, 0xc4u8],
    {
        EntityId_t::from_bytes(0x00, 0x03, 0x00, 0xc4)
    }

    pub fn c_EntityId_TypeLookup_reply_writer() -> (r: EntityId_t)
        ensures
            r.value@ == seq![0x00u8, 0x03u8, 0x01u8, 0xc3u8],
    {
        EntityId_t::from_bytes(0x00, 0x03, 0x01, 0xc3)
    }

    pub fn c_EntityId_TypeLookup_reply_reader() -> (r: EntityId_t)
        ensures
            r.value@ == seq![0x00u8, 0x03u8, 0x01u8, 0xc4u8],
    {
        EntityId_t::from_bytes(0x00, 0x03, 0x01, 0xc4)
    }

    pub fn sedp_builtin_publications_secure_writer() -> (r: EntityId_t)
        ensures
            r.value@ == seq![0xffu8, 0x00u8, 0x03u8, 0xc2u8],
    {
        EntityId_t::from_bytes(0xff, 0x00, 0x03, 0xc2)
    }

    pub fn sedp_builtin_publications_secure_reader() -> (r: EntityId_t)
        ensures
            r.value@ == seq![0xffu8, 0x00u8, 0x03u8, 0xc7u8],
    {
        EntityId_t::from_bytes(0xff, 0x00, 0x03, 0xc7)
    }

    pub fn sedp_builtin_subscriptions_secure_writer() -> (r: EntityId_t)
        ensures
            r.value@ == seq![0xffu8, 0x00u8, 0x04u8, 0xc2u8],
    {
        EntityId_t::from_bytes(0xff, 0x00, 0x04, 0xc2)
    }

    pub fn sedp_builtin_subscriptions_secure_reader() -> (r: EntityId_t)
        ensures
            r.value@ == seq![0xffu8, 0x00u8, 0x04u8, 0xc7u8],
    {
        EntityId_t::from_bytes(0xff, 0x00, 0x04, 0xc7)
    }

    pub fn participant_volatile_message_secure_writer_entity_id() -> (r: EntityId_t)
        ensures
            r.value@ == seq![0xffu8, 0x02u8, 0x02u8, 0xc3u8],
    {
        EntityId_t::from_bytes(0xff, 0x02, 0x02, 0xc3)
    }

    pub fn participant_volatile_message_secure_reader_entity_id() -> (r: EntityId_t)
        ensures
            r.value@ == seq![0xffu8, 0x02u8, 0x02u8, 0xc4u8],
    {
        EntityId_t::from_bytes(0xff, 0x02, 0x02, 0xc4)
    }

    pub fn c_EntityId_WriterLivelinessSecure() -> (r: EntityId_t)
        ensures
            r.value@ == seq![0xffu8, 0x02u8, 0x00u8, 0xc2u8],
    {
        EntityId_t::from_bytes(0xff, 0x02, 0x00, 0xc2)
    }

    pub fn c_EntityId_ReaderLivelinessSecure() -> (r: EntityId_t)
        ensures
            r.value@ == seq![0xffu8, 0x02u8, 0x00u8, 0xc7u8],
    {
        EntityId_t::from_bytes(0xff, 0x02, 0x00, 0xc7)
    }

    pub fn ds_server_virtual_writer() -> (r: EntityId_t)
        ensures
            r.value@ == seq![0x00u8, 0x03u8, 0x00u8, 0x73u8],
    {
        EntityId_t::from_bytes(0x00, 0x03, 0x00, 0x73)
    }

    pub fn ds_server_virtual_reader() -> (r: EntityId_t)
        ensures
            r.value@ == seq![0x00u8, 0x03u8, 0x00u8, 0x74u8],
    {
        EntityId_t::from_bytes(0x00, 0x03, 0x00, 0x74)
    }

    /// The unknown entity: all bytes zero.
    pub fn unknown() -> (r: EntityId_t)
        ensures
            r.value@ == seq![0u8, 0u8, 0u8, 0u8],
    {
        EntityId_t::from_bytes(0, 0, 0, 0)
    }

    /// Reverses the four bytes in place.
    pub fn reverse(value: &mut [u8; 4])
        ensures
            final(value)@ == seq![old(value)@[3], old(value)@[2], old(value)@[1], old(value)@[0]],
    {
        let mut oaux = value[3];
        value[3] = value[0];
        value[0] = oaux;
        oaux = value[2];
        value[2] = value[1];
        value[1] = oaux;
        proof {
            assert(final(value)@ =~= seq![old(value)@[3], old(value)@[2], old(value)@[1], old(value)@[0]]);
        }
    }

    /// The id of the 32-bit constant `id`: its bytes, most significant first.
    pub fn new(id: u32) -> (r: EntityId_t)
        ensures
            r.value@ == be_bytes(id),
    {
        let mut value: [u8; 4] = [0, 0, 0, 0];
        write_u32_le(&mut value, id);
        EntityId_t::reverse(&mut value);
        proof {
            assert(value@ =~= be_bytes(id));
        }
        EntityId_t { value }
    }

    /// A hash of the first three bytes.
    pub fn hash(k: &EntityId_t) -> (r: usize)
        ensures
            r == k.value@[0] * 0x1_0000 + k.value@[1] * 0x100 + k.value@[2],
    {
        let a: usize = k.value[0] as usize;
        let b: usize = k.value[1] as usize;
        let c: usize = k.value[2] as usize;
        proof {
            assert((a << 16usize) | (b << 8usize) | c == a * 0x1_0000 + b * 0x100 + c) by (
            bit_vector)
                requires
                    a < 0x100,
                    b < 0x100,
                    c < 0x100,
            ;
        }
        (a << 16) | (b << 8) | c
    }

    /// Whether the id is that of the 32-bit constant `other`.
    pub fn equals_u32(&self, other: u32) -> (r: bool)
        ensures
            r == (self.value@ == be_bytes(other)),
    {
        let other_id = EntityId_t::new(other);
        let r = self.value[0] == other_id.value[0] && self.value[1] == other_id.value[1]
            && self.value[2] == other_id.value[2] && self.value[3] == other_id.value[3];
        proof {
            if r {
                assert(self.value@ =~= other_id.value@);
            }
        }
        r
    }
}

impl Default for EntityId_t {
    fn default() -> (r: EntityId_t)
        ensures
            r.value@ == seq![0u8, 0u8, 0u8, 0u8],
    {
        EntityId_t::unknown()
    }
}

impl PartialEq<u32> for EntityId_t {
    fn eq(&self, other: &u32) -> (r: bool) {
        self.equals_u32(*other)
    }
}

impl vstd::std_specs::cmp::PartialEqSpecImpl<u32> for EntityId_t {
    open spec fn obeys_eq_spec() -> bool {
        true
    }

    open spec fn eq_spec(&self, other: &u32) -> bool {
        self.value@ == be_bytes(*other)
    }
}

impl PartialEq<EntityId_t> for u32 {
    fn eq(&self, other: &EntityId_t) -> (r: bool) {
        other.equals_u32(*self)
    }
}

impl vstd::std_specs::cmp::PartialEqSpecImpl<EntityId_t> for u32 {
    open spec fn obeys_eq_spec() -> bool {
        true
    }

    open spec fn eq_spec(&self, other: &EntityId_t) -> bool {
        other.value@ == be_bytes(*self)
    }
}

} // verus!
