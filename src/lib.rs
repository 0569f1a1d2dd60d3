//! Value types of an RTPS/DDS reliable publish-subscribe stack: sequence
//! numbers, the 256-item bitmap that reports received or missing numbers,
//! GUIDs, instance handles, locators and serialized payloads.
#![allow(non_camel_case_types)]
#![allow(non_snake_case)]
#![allow(non_upper_case_globals)]

pub mod bitmap;
pub mod bitmap_laws;
pub mod bits;
pub mod entity_id;
pub mod error;
pub mod guid;
pub mod guid_prefix;
pub mod instance_handle;
pub mod ip_check;
pub mod ip_locator;
pub mod locator;
pub mod locator_text;
pub mod sequence_number;
pub mod serialized_payload;
pub mod text;

pub use bitmap::BitmapRange;
pub use entity_id::EntityId_t;
pub use error::RtpsError;
pub use guid::GUID_t;
pub use guid_prefix::GuidPrefix_t;
pub use instance_handle::InstanceHandle_t;
pub use locator::Locator_t;
pub use sequence_number::SequenceNumber_t;
pub use serialized_payload::SerializedPayload_t;
