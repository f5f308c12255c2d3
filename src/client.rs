//! The client's side of the protocol: framing requests, reading replies and
//! deciding whether to follow a redirect. The socket work is the caller's.
use vstd::prelude::*;

use crate::protocol::{
    get_str, header_bytes, put_slice, read_be16, take_str, Header, Op, Status, MAGIC, VERSION,
};

verus! {

/// How many redirects a call follows before it gives up.
pub const MAX_REDIRECTS: u32 = 5;

/// The header of a request with opcode `op` and a body of `len` bytes.
pub open spec fn request_header(op: Op, len: u32) -> Header {
    Header { magic: MAGIC, version: VERSION, op, flags: 0, stream_id: 0, body_len: len }
}

/// The whole request frame: header, then `body`.
pub fn request_frame(op: Op, body: &[u8]) -> (r: Vec<u8>)
    requires
        body@.len() <= u32::MAX,
    ensures
        r@ == header_bytes(request_header(op, body@.len() as u32)) + body@,
{
    let hdr = Header { magic: MAGIC, version: VERSION, op, flags: 0, stream_id: 0, body_len: body.len() as u32 };
    let mut buf: Vec<u8> = Vec::new();
    hdr.encode(&mut buf);
    put_slice(&mut buf, body);
    assert(buf@ =~= header_bytes(request_header(op, body@.len() as u32)) + body@);
    buf
}

/// A reply body read as its status and the payload after it.
pub open spec fn reply_of(b: Seq<u8>) -> Option<(Status, Seq<u8>)> {
    if b.len() < 2 {
        None
    } else {
        match Status::spec_from_code(read_be16(b)) {
            None => None,
            Some(st) => Some((st, b.subrange(2, b.len() as int))),
        }
    }
}

/// Splits a reply body into its status and payload; `None` where it is
/// shorter than a status or the status code is unknown.
pub fn parse_reply(body: &[u8]) -> (r: Option<(Status, Vec<u8>)>)
    ensures
        r matches Some((st, p)) ==> reply_of(body@) == Some((st, p@)),
        r is None ==> reply_of(body@) is None,
{
    if body.len() < 2 {
        return None;
    }
    let code = (body[0] as u16) * 256 + (body[1] as u16);
    match Status::from_code(code) {
        None => None,
        Some(st) => Some((st, vstd::slice::slice_to_vec(&body[2..body.len()]))),
    }
}

/// What a call does with a reply.
pub enum ClientStep {
    /// The reply is the answer.
    Done,
    /// Ask again at this address.
    Follow(String),
    /// The call has followed `MAX_REDIRECTS` redirects already.
    TooManyRedirects,
    /// A redirect whose payload holds no address.
    BadRedirect,
}

/// Decides on a reply with status `st` and payload `payload`, after
/// `redirects` redirects have been followed.
pub fn redirect_step(redirects: u32, st: Status, payload: &[u8]) -> (r: ClientStep)
    ensures
        st != Status::Redirect ==> r is Done,
        st == Status::Redirect && redirects >= MAX_REDIRECTS ==> r is TooManyRedirects,
        st == Status::Redirect && redirects < MAX_REDIRECTS ==> (match take_str(payload@) {
            Some((addr, _)) => r matches ClientStep::Follow(a) && a@ == addr,
            None => r is BadRedirect,
        }),
{
    if st != Status::Redirect {
        return ClientStep::Done;
    }
    if redirects >= MAX_REDIRECTS {
        return ClientStep::TooManyRedirects;
    }
    let mut cursor: &[u8] = payload;
    match get_str(&mut cursor) {
        Some(addr) => ClientStep::Follow(addr),
        None => ClientStep::BadRedirect,
    }
}

} // verus!
