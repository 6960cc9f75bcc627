//! The API frames that the parser produces.
use vstd::prelude::*;
use tinyvec::ArrayVec;
use crate::xbee::payload::{payload_as_slice, payload_contents};

verus! {

/// An API frame.
pub enum ApiFrame {
    Transmit64Request(Transmit64Request),
}

/// A transmit request to a 64-bit destination address.
pub struct Transmit64Request {
    pub frame_id: u8,
    pub dest_addr: u64,
    pub options: u8,
    pub data: ArrayVec<[u8; 256]>,
}

impl Transmit64Request {
    /// The payload bytes of the request.
    pub open spec fn spec_payload(&self) -> Seq<u8> {
        payload_contents(self.data)
    }

    /// The payload bytes of the request.
    pub fn payload(&self) -> (s: &[u8])
        ensures
            s@ == self.spec_payload(),
    {
        payload_as_slice(&self.data)
    }
}

} // verus!
