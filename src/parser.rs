//! Parsing in the style of a combinator: each step hands back the octets
//! it left, then the value it read.
use crate::bits::CodecError;
use crate::primaryheader::{header_of, PrimaryHeader};
use vstd::prelude::*;

verus! {

/// Reads a primary header from the front of `input`; hands back the octets
/// after it and the header.
pub fn primary_header(input: &[u8]) -> (r: Result<(&[u8], PrimaryHeader), CodecError>)
    ensures
        input@.len() < 6 <==> r is Err,
        r matches Err(e) ==> e == CodecError::InsufficientData,
        r matches Ok((rest, h)) ==> {
            &&& h == header_of(input@)
            &&& h.well_formed()
            &&& rest@ == input@.subrange(6, input@.len() as int)
        },
{
    match PrimaryHeader::decode(input) {
        Ok((h, rest)) => Ok((rest, h)),
        Err(e) => Err(e),
    }
}

} // verus!
