//! One exchange over a connection held in memory: the request goes out, the response
//! is read back.

use vstd::prelude::*;
use vstd::slice::slice_to_vec;
use vstd::utf8::encode_utf8;

use crate::async_connection::Connection;
use crate::error::HttpError;
use crate::header::{header_map_entries, HEADER_MAP_SAFE_LEN};
use crate::reader::{after_first_line, ByteReader};
use crate::request::{serialize_http_request, values_are_text, Request};
use crate::response::{fields_read, read_response, response, Response, ResponseParts};

verus! {

/// A connection held in memory: the bytes that the peer sends, and the bytes written
/// to the peer so far.
pub struct MemoryConnection {
    /// What the peer sends.
    pub incoming: ByteReader,
    /// What has been written to the peer.
    pub outgoing: Vec<u8>,
}

impl Connection for MemoryConnection {
    open spec fn encrypted(&self) -> bool {
        false
    }

    fn is_encrypted(&self) -> (b: bool) {
        false
    }
}

impl Request {
    /// The bytes that this request puts on the wire: the head, then the payload if
    /// there is one.
    pub open spec fn wire_bytes(self) -> Seq<u8> {
        encode_utf8(self.head_text()) + match self.spec_payload() {
            Some(body) => body,
            None => Seq::empty(),
        }
    }
}

impl MemoryConnection {
    /// A connection on which the peer sends `incoming`, and to which nothing has been
    /// written.
    pub fn new(incoming: Vec<u8>) -> (connection: MemoryConnection)
        ensures
            connection.incoming@ == incoming@,
            connection.outgoing@ == Seq::<u8>::empty(),
    {
        MemoryConnection { incoming: ByteReader::new(incoming), outgoing: Vec::new() }
    }

    /// Sends `request` and reads the response.
    ///
    /// A request that cannot be serialized is not sent, and nothing is read. Otherwise
    /// the head is written, then the body unless it is absent or empty, and one
    /// response is read as [`read_response`] reads it: the header collection may refuse
    /// a field, but only once it holds [`HEADER_MAP_SAFE_LEN`] fields.
    pub fn send_request(&mut self, request: &Request) -> (r: Result<Response, HttpError>)
        ensures
            !values_are_text(header_map_entries(request.headers)) ==> {
                &&& r matches Err(e) && e == HttpError::HeaderValueNotText
                &&& final(self).outgoing@ == old(self).outgoing@
                &&& final(self).incoming@ == old(self).incoming@
            },
            values_are_text(header_map_entries(request.headers)) ==> {
                &&& final(self).outgoing@ == old(self).outgoing@ + request.wire_bytes()
                &&& r matches Ok(received) ==> received.well_formed() && response(
                    old(self).incoming@,
                ) == Ok::<_, HttpError>((received@, final(self).incoming@))
                &&& r matches Err(e) ==> if e == HttpError::TooManyHeaders {
                    &&& fields_read(after_first_line(old(self).incoming@), Seq::empty()).len()
                        >= HEADER_MAP_SAFE_LEN
                    &&& response(old(self).incoming@) matches Ok(read) ==> read.0.fields.len()
                        >= HEADER_MAP_SAFE_LEN
                } else {
                    response(old(self).incoming@) == Err::<(ResponseParts, Seq<u8>), _>(e)
                }
            },
    {
        let head = serialize_http_request(request)?;
        let ghost written = self.outgoing@;
        let mut head_bytes = slice_to_vec(head.as_str().as_bytes());
        assert(head_bytes@ == encode_utf8(request.head_text()));
        self.outgoing.append(&mut head_bytes);
        match request.payload() {
            Some(body) => {
                let mut body_bytes = slice_to_vec(body.as_slice());
                self.outgoing.append(&mut body_bytes);
                assert(self.outgoing@ == written + request.wire_bytes());
            },
            None => {
                assert(self.outgoing@ == written + request.wire_bytes());
            },
        }
        read_response(&mut self.incoming)
    }
}

} // verus!
