//! A codec for the CCSDS Space Packet: the bit-packed six-octet primary
//! header, an optional mission-defined secondary header, and the payload.

pub mod bits;
mod endian;
pub mod parser;
pub mod primaryheader;
pub mod segment;
pub mod spacepacket;
pub mod types;

pub use bits::{BitReader, BitWriter, CodecError};
pub use parser::primary_header;
pub use primaryheader::{PrimaryHeader, PRIMARY_HEADER_LEN};
pub use segment::{DataSegment, SegmentError};
pub use spacepacket::{PacketError, SpacePacket, SpacePacketBuilder, MAX_DATA_FIELD_LEN};
pub use types::{PacketType, SecondaryHeaderFlag, SeqFlag};
