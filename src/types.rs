//! The enumerated fields of the primary header.
use vstd::prelude::*;

verus! {

/// Whether the packet carries telemetry (`Data`) or a command (`Command`).
/// One bit on the wire.
#[derive(Debug, PartialEq, Eq, Structural, Copy, Clone)]
pub enum PacketType {
    /// The packet contains telemetry data.
    Data,
    /// The packet contains a command.
    Command,
}

impl PacketType {
    /// The value of the field on the wire.
    pub open spec fn spec_bits(self) -> u16 {
        match self {
            PacketType::Data => 0,
            PacketType::Command => 1,
        }
    }

    /// The variant that a one-bit field holds.
    pub open spec fn spec_from_bits(b: u16) -> PacketType {
        if b == 0 {
            PacketType::Data
        } else {
            PacketType::Command
        }
    }

    /// The variant that a field of the given value holds.
    pub fn from_bits(b: u16) -> (r: PacketType)
        requires
            b < 2,
        ensures
            r == Self::spec_from_bits(b),
            r.spec_bits() == b,
    {
        if b == 0 {
            PacketType::Data
        } else {
            PacketType::Command
        }
    }

    /// The value of the field on the wire.
    pub fn bits(self) -> (r: u16)
        ensures
            r == self.spec_bits(),
            Self::spec_from_bits(r) == self,
    {
        match self {
            PacketType::Data => 0,
            PacketType::Command => 1,
        }
    }
}

impl Default for PacketType {
    fn default() -> (r: PacketType)
        ensures
            r == PacketType::Data,
    {
        PacketType::Data
    }
}

/// Whether a secondary header follows the primary header. One bit on the wire.
#[derive(Debug, PartialEq, Eq, Structural, Copy, Clone)]
pub enum SecondaryHeaderFlag {
    /// No secondary header: the payload follows the primary header.
    NotPresent,
    /// A secondary header follows the primary header.
    Present,
}

impl SecondaryHeaderFlag {
    /// The value of the field on the wire.
    pub open spec fn spec_bits(self) -> u16 {
        match self {
            SecondaryHeaderFlag::NotPresent => 0,
            SecondaryHeaderFlag::Present => 1,
        }
    }

    /// The variant that a one-bit field holds.
    pub open spec fn spec_from_bits(b: u16) -> SecondaryHeaderFlag {
        if b == 0 {
            SecondaryHeaderFlag::NotPresent
        } else {
            SecondaryHeaderFlag::Present
        }
    }

    /// The variant that a field of the given value holds.
    pub fn from_bits(b: u16) -> (r: SecondaryHeaderFlag)
        requires
            b < 2,
        ensures
            r == Self::spec_from_bits(b),
            r.spec_bits() == b,
    {
        if b == 0 {
            SecondaryHeaderFlag::NotPresent
        } else {
            SecondaryHeaderFlag::Present
        }
    }

    /// The value of the field on the wire.
    pub fn bits(self) -> (r: u16)
        ensures
            r == self.spec_bits(),
            Self::spec_from_bits(r) == self,
    {
        match self {
            SecondaryHeaderFlag::NotPresent => 0,
            SecondaryHeaderFlag::Present => 1,
        }
    }
}

/// The role of the packet in a segmented transfer. Two bits on the wire.
#[derive(Debug, PartialEq, Eq, Structural, Copy, Clone)]
pub enum SeqFlag {
    /// The packet continues a series of segments.
    Continuation,
    /// The packet is the first of a series of segments.
    FirstSegment,
    /// The packet is the last of a series of segments.
    LastSegment,
    /// The packet stands alone; the sequence count then only tells packets apart.
    Unsegmented,
}

impl SeqFlag {
    /// The value of the field on the wire.
    pub open spec fn spec_bits(self) -> u16 {
        match self {
            SeqFlag::Continuation => 0,
            SeqFlag::FirstSegment => 1,
            SeqFlag::LastSegment => 2,
            SeqFlag::Unsegmented => 3,
        }
    }

    /// The variant that a two-bit field holds.
    pub open spec fn spec_from_bits(b: u16) -> SeqFlag {
        if b == 0 {
            SeqFlag::Continuation
        } else if b == 1 {
            SeqFlag::FirstSegment
        } else if b == 2 {
            SeqFlag::LastSegment
        } else {
            SeqFlag::Unsegmented
        }
    }

    /// The variant that a field of the given value holds.
    pub fn from_bits(b: u16) -> (r: SeqFlag)
        requires
            b < 4,
        ensures
            r == Self::spec_from_bits(b),
            r.spec_bits() == b,
    {
        if b == 0 {
            SeqFlag::Continuation
        } else if b == 1 {
            SeqFlag::FirstSegment
        } else if b == 2 {
            SeqFlag::LastSegment
        } else {
            SeqFlag::Unsegmented
        }
    }

    /// The value of the field on the wire.
    pub fn bits(self) -> (r: u16)
        ensures
            r == self.spec_bits(),
            Self::spec_from_bits(r) == self,
    {
        match self {
            SeqFlag::Continuation => 0,
            SeqFlag::FirstSegment => 1,
            SeqFlag::LastSegment => 2,
            SeqFlag::Unsegmented => 3,
        }
    }
}

impl Default for SeqFlag {
    fn default() -> (r: SeqFlag)
        ensures
            r == SeqFlag::Unsegmented,
    {
        SeqFlag::Unsegmented
    }
}

} // verus!
