//! The capability that a secondary header offers the packet assembler:
//! decode from octets, encode to octets, report its encoded length.
use crate::bits::CodecError;
use crate::endian::{be16, read_u16_be, write_u16_be};
use vstd::prelude::*;

verus! {

/// Why a segment could not be decoded.
#[derive(Debug, PartialEq, Eq, Copy, Clone)]
pub enum SegmentError<E> {
    /// Fewer octets remain than the segment needs.
    Truncated,
    /// The octets do not hold a valid segment; the decoder's own error.
    Invalid(E),
}

/// A run of packet octets with a layout of its own, such as a
/// mission-defined secondary header.
pub trait DataSegment: Sized {
    /// What the decoder signals when the octets are not a valid segment.
    type Error;

    /// Whether the value can be encoded.
    spec fn valid(&self) -> bool;

    /// The octets that the value encodes to.
    spec fn encoding(&self) -> Seq<u8>;

    /// What decoding the front of `bytes` gives: the value and the number
    /// of octets it took.
    spec fn decoding(bytes: Seq<u8>) -> Result<(Self, usize), SegmentError<Self::Error>>;

    /// A valid value is read back from its own encoding, whatever follows
    /// it, and takes exactly the octets of that encoding.
    proof fn lemma_decode_encoding(s: Self, rest: Seq<u8>)
        requires
            s.valid(),
        ensures
            s.encoding().len() <= 0xFFFF,
            Self::decoding(s.encoding() + rest) == Ok::<(Self, usize), SegmentError<Self::Error>>(
                (s, s.encoding().len() as usize),
            ),
    ;

    /// A successful decode takes no more octets than there are, yields a
    /// valid value, and takes exactly the octets of that value's encoding.
    proof fn lemma_decoding_consumes(bytes: Seq<u8>)
        ensures
            Self::decoding(bytes) matches Ok((s, n)) ==> {
                &&& n <= bytes.len()
                &&& s.valid()
                &&& n == s.encoding().len()
            },
    ;

    /// Decodes a value from the front of `bytes`.
    fn from_bytes(bytes: &[u8]) -> (r: Result<(Self, usize), SegmentError<Self::Error>>)
        ensures
            r == Self::decoding(bytes@),
            r matches Ok((s, n)) ==> n <= bytes@.len() && s.valid(),
    ;

    /// The octets of the value.
    fn to_bytes(&self) -> (r: Vec<u8>)
        requires
            self.valid(),
        ensures
            r@ == self.encoding(),
    ;

    /// The number of octets of the value.
    fn length(&self) -> (r: u16)
        ensures
            r == self.encoding().len(),
    ;
}

/// A single octet.
impl DataSegment for u8 {
    type Error = CodecError;

    open spec fn valid(&self) -> bool {
        true
    }

    open spec fn encoding(&self) -> Seq<u8> {
        seq![*self]
    }

    open spec fn decoding(bytes: Seq<u8>) -> Result<(u8, usize), SegmentError<CodecError>> {
        if bytes.len() < 1 {
            Err(SegmentError::Truncated)
        } else {
            Ok((bytes[0], 1))
        }
    }

    proof fn lemma_decode_encoding(s: u8, rest: Seq<u8>) {
        assert((seq![s] + rest)[0] == s);
    }

    proof fn lemma_decoding_consumes(bytes: Seq<u8>) {
    }

    fn from_bytes(bytes: &[u8]) -> (r: Result<(u8, usize), SegmentError<CodecError>>) {
        if bytes.len() < 1 {
            Err(SegmentError::Truncated)
        } else {
            Ok((bytes[0], 1))
        }
    }

    fn to_bytes(&self) -> (r: Vec<u8>) {
        let mut out: Vec<u8> = Vec::new();
        out.push(*self);
        proof {
            assert(out@ =~= seq![*self]);
        }
        out
    }

    fn length(&self) -> (r: u16) {
        1
    }
}

/// A big-endian 16-bit integer.
impl DataSegment for u16 {
    type Error = CodecError;

    open spec fn valid(&self) -> bool {
        true
    }

    open spec fn encoding(&self) -> Seq<u8> {
        seq![(*self / 256) as u8, (*self % 256) as u8]
    }

    open spec fn decoding(bytes: Seq<u8>) -> Result<(u16, usize), SegmentError<CodecError>> {
        if bytes.len() < 2 {
            Err(SegmentError::Truncated)
        } else {
            Ok((be16(bytes[0], bytes[1]) as u16, 2))
        }
    }

    proof fn lemma_decode_encoding(s: u16, rest: Seq<u8>) {
        let b = s.encoding() + rest;
        assert(b[0] == (s / 256) as u8 && b[1] == (s % 256) as u8);
    }

    proof fn lemma_decoding_consumes(bytes: Seq<u8>) {
    }

    fn from_bytes(bytes: &[u8]) -> (r: Result<(u16, usize), SegmentError<CodecError>>) {
        if bytes.len() < 2 {
            Err(SegmentError::Truncated)
        } else {
            Ok((read_u16_be(bytes), 2))
        }
    }

    fn to_bytes(&self) -> (r: Vec<u8>) {
        let o = write_u16_be(*self);
        let mut out: Vec<u8> = Vec::new();
        out.push(o[0]);
        out.push(o[1]);
        proof {
            assert(out@ =~= self.encoding());
        }
        out
    }

    fn length(&self) -> (r: u16) {
        2
    }
}

} // verus!
