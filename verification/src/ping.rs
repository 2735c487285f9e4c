//! The ping request and response, packets of a fixed header alone.

use crate::buffer::{bytes_mut_put_slice, bytes_mut_view, max_buffer_len};
use crate::error::Error;
use bytes::BytesMut;
use vstd::prelude::*;

verus! {

/// The bytes of a ping request: type 12, no flags, remaining length 0.
pub open spec fn ping_req_bytes() -> Seq<u8> {
    seq![0xC0u8, 0x00u8]
}

/// The bytes of a ping response: type 13, no flags, remaining length 0.
pub open spec fn ping_resp_bytes() -> Seq<u8> {
    seq![0xD0u8, 0x00u8]
}

#[derive(Debug, Clone, PartialEq, Eq)]
pub struct PingReq;

impl PingReq {
    pub fn write(payload: &mut BytesMut) -> (res: Result<usize, Error>)
        requires
            bytes_mut_view(*old(payload)).len() + 2 <= max_buffer_len(),
        ensures
            res == Ok::<usize, Error>(2),
            bytes_mut_view(*final(payload)) == bytes_mut_view(*old(payload)) + ping_req_bytes(),
    {
        let frame: [u8; 2] = [0xC0, 0x00];
        let frame_slice: &[u8] = &frame;
        assert(frame_slice@ =~= ping_req_bytes());
        bytes_mut_put_slice(payload, frame_slice);
        Ok(2)
    }
}

#[derive(Debug, Clone, PartialEq, Eq)]
pub struct PingResp;

impl PingResp {
    pub fn write(payload: &mut BytesMut) -> (res: Result<usize, Error>)
        requires
            bytes_mut_view(*old(payload)).len() + 2 <= max_buffer_len(),
        ensures
            res == Ok::<usize, Error>(2),
            bytes_mut_view(*final(payload)) == bytes_mut_view(*old(payload)) + ping_resp_bytes(),
    {
        let frame: [u8; 2] = [0xD0, 0x00];
        let frame_slice: &[u8] = &frame;
        assert(frame_slice@ =~= ping_resp_bytes());
        bytes_mut_put_slice(payload, frame_slice);
        Ok(2)
    }
}

} // verus!
