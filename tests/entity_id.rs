#![allow(non_snake_case)]
#![allow(dead_code)]
use rtps::EntityId_t;

#[test]
fn entity_id_test() {
    assert_eq!(
        EntityId_t::new(EntityId_t::ENTITYID_UNKNOWN).value,
        EntityId_t::c_EntityId_Unknown().value
    );

    assert_eq!(
        EntityId_t::new(EntityId_t::ENTITYID_RTPSParticipant).value,
        EntityId_t::c_EntityId_RTPSParticipant().value
    );

    assert_eq!(
        EntityId_t::new(EntityId_t::ENTITYID_SEDP_BUILTIN_TOPIC_WRITER).value,
        [0x00u8, 0x00u8, 0x02u8, 0xc2u8]
    );

    assert_eq!(
        EntityId_t::new(EntityId_t::ENTITYID_SEDP_BUILTIN_TOPIC_READER).value,
        [0x00u8, 0x00u8, 0x02u8, 0xc7u8]
    );

    assert_eq!(
        EntityId_t::new(EntityId_t::ENTITYID_SEDP_BUILTIN_PUBLICATIONS_WRITER).value,
        EntityId_t::c_EntityId_SEDPPubWriter().value
    );

    assert_eq!(
        EntityId_t::new(EntityId_t::ENTITYID_SEDP_BUILTIN_PUBLICATIONS_READER).value,
        EntityId_t::c_EntityId_SEDPPubReader().value
    );

    assert_eq!(
        EntityId_t::new(EntityId_t::ENTITYID_SEDP_BUILTIN_SUBSCRIPTIONS_WRITER).value,
        EntityId_t::c_EntityId_SEDPSubWriter().value
    );

    assert_eq!(
        EntityId_t::new(EntityId_t::ENTITYID_SEDP_BUILTIN_SUBSCRIPTIONS_READER).value,
        EntityId_t::c_EntityId_SEDPSubReader().value
    );

    assert_eq!(
        EntityId_t::new(EntityId_t::ENTITYID_SPDP_BUILTIN_RTPSParticipant_WRITER).value,
        EntityId_t::c_EntityId_SPDPWriter().value
    );

    assert_eq!(
        EntityId_t::new(EntityId_t::ENTITYID_SPDP_BUILTIN_RTPSParticipant_READER).value,
        EntityId_t::c_EntityId_SPDPReader().value
    );

    assert_eq!(
        EntityId_t::new(EntityId_t::ENTITYID_P2P_BUILTIN_RTPSParticipant_MESSAGE_WRITER).value,
        EntityId_t::c_EntityId_WriterLiveliness().value
    );

    assert_eq!(
        EntityId_t::new(EntityId_t::ENTITYID_P2P_BUILTIN_RTPSParticipant_MESSAGE_READER).value,
        EntityId_t::c_EntityId_ReaderLiveliness().value
    );

    assert_eq!(
        EntityId_t::new(EntityId_t::ENTITYID_P2P_BUILTIN_PARTICIPANT_STATELESS_WRITER).value,
        EntityId_t::participant_stateless_message_writer_entity_id().value
    );

    assert_eq!(
        EntityId_t::new(EntityId_t::ENTITYID_P2P_BUILTIN_PARTICIPANT_STATELESS_READER).value,
        EntityId_t::participant_stateless_message_reader_entity_id().value
    );

    assert_eq!(
        EntityId_t::new(EntityId_t::ENTITYID_TL_SVC_REQ_WRITER).value,
        EntityId_t::c_EntityId_TypeLookup_request_writer().value
    );

    assert_eq!(
        EntityId_t::new(EntityId_t::ENTITYID_TL_SVC_REQ_READER).value,
        EntityId_t::c_EntityId_TypeLookup_request_reader().value
    );

    assert_eq!(
        EntityId_t::new(EntityId_t::ENTITYID_TL_SVC_REPLY_WRITER).value,
        EntityId_t::c_EntityId_TypeLookup_reply_writer().value
    );

    assert_eq!(
        EntityId_t::new(EntityId_t::ENTITYID_TL_SVC_REPLY_READER).value,
        EntityId_t::c_EntityId_TypeLookup_reply_reader().value
    );

    assert_eq!(
        EntityId_t::new(EntityId_t::ENTITYID_SEDP_BUILTIN_PUBLICATIONS_SECURE_WRITER).value,
        EntityId_t::sedp_builtin_publications_secure_writer().value
    );

    assert_eq!(
        EntityId_t::new(EntityId_t::ENTITYID_SEDP_BUILTIN_PUBLICATIONS_SECURE_READER).value,
        EntityId_t::sedp_builtin_publications_secure_reader().value
    );

    assert_eq!(
        EntityId_t::new(EntityId_t::ENTITYID_SEDP_BUILTIN_SUBSCRIPTIONS_SECURE_WRITER).value,
        EntityId_t::sedp_builtin_subscriptions_secure_writer().value
    );

    assert_eq!(
        EntityId_t::new(EntityId_t::ENTITYID_SEDP_BUILTIN_SUBSCRIPTIONS_SECURE_READER).value,
        EntityId_t::sedp_builtin_subscriptions_secure_reader().value
    );

    assert_eq!(
        EntityId_t::new(EntityId_t::ENTITYID_P2P_BUILTIN_PARTICIPANT_MESSAGE_SECURE_WRITER)
            .value,
        EntityId_t::c_EntityId_WriterLivelinessSecure().value
    );

    assert_eq!(
        EntityId_t::new(EntityId_t::ENTITYID_P2P_BUILTIN_PARTICIPANT_MESSAGE_SECURE_READER)
            .value,
        EntityId_t::c_EntityId_ReaderLivelinessSecure().value
    );

    assert_eq!(
        EntityId_t::new(
            EntityId_t::ENTITYID_P2P_BUILTIN_PARTICIPANT_VOLATILE_MESSAGE_SECURE_WRITER
        )
        .value,
        EntityId_t::participant_volatile_message_secure_writer_entity_id().value
    );

    assert_eq!(
        EntityId_t::new(
            EntityId_t::ENTITYID_P2P_BUILTIN_PARTICIPANT_VOLATILE_MESSAGE_SECURE_READER
        )
        .value,
        EntityId_t::participant_volatile_message_secure_reader_entity_id().value
    );

    assert_eq!(
        EntityId_t::new(EntityId_t::ENTITYID_SPDP_RELIABLE_BUILTIN_PARTICIPANT_SECURE_WRITER)
            .value,
        [0xffu8, 0x01u8, 0x01u8, 0xc2u8]
    );

    assert_eq!(
        EntityId_t::new(EntityId_t::ENTITYID_SPDP_RELIABLE_BUILTIN_PARTICIPANT_SECURE_READER)
            .value,
        [0xffu8, 0x01u8, 0x01u8, 0xc7u8]
    );

    assert_eq!(
        EntityId_t::new(EntityId_t::ENTITYID_DS_SERVER_VIRTUAL_WRITER).value,
        EntityId_t::ds_server_virtual_writer().value
    );

    assert_eq!(
        EntityId_t::new(EntityId_t::ENTITYID_DS_SERVER_VIRTUAL_READER).value,
        EntityId_t::ds_server_virtual_reader().value
    );
}

#[test]
fn operator_test() {
    let id1 = EntityId_t::c_EntityId_SEDPPubWriter();
    assert_eq!(id1.value, EntityId_t::c_EntityId_SEDPPubWriter().value);

    let id2 = EntityId_t::c_EntityId_SEDPPubWriter().clone();
    assert_eq!(id1.value, id2.value);
    assert!(id1 == id2);

    let id3 = EntityId_t::unknown();
    assert!(id1 != id3);

    let id4 = EntityId_t::ENTITYID_RTPSParticipant;
    assert!(id1 != id4);
    assert!(id4 != id1);
    assert!(id1 == EntityId_t::ENTITYID_SEDP_BUILTIN_PUBLICATIONS_WRITER);
    assert!(EntityId_t::ENTITYID_SEDP_BUILTIN_PUBLICATIONS_WRITER == id1);
}
