//! The connection loop's decisions: splitting frames off the read buffer,
//! dispatching by opcode, and framing replies. The socket work is the
//! caller's.
use vstd::prelude::*;

use crate::cluster::Cluster;
use crate::handler::{
    consume_request, consume_reply, consume_queues, create_queue_effect, create_topic_effect,
    handle_bind_queue, handle_consume, handle_create_queue, handle_create_topic, handle_metadata,
    handle_produce, handle_read, metadata_reply, produce_effect, bind_queue_effect, status_field,
    with_queue, Wait,
};
use crate::protocol::{header_bytes, parse_header, Header, Op, ProtoError, Status, HEADER_LEN, MAGIC, VERSION};
use crate::queue::{Broker, Registry};

verus! {

/// Splitting one frame off the front of `b`: `Ok(None)` until the header
/// and the whole body are there; a bad header is an error.
pub open spec fn frame_of(b: Seq<u8>) -> Result<Option<(Header, Seq<u8>)>, ProtoError> {
    if b.len() < 16 {
        Ok(None)
    } else {
        match parse_header(b) {
            Err(e) => Err(e),
            Ok(h) => if b.len() < 16 + h.body_len {
                Ok(None)
            } else {
                Ok(Some((h, b.subrange(16, 16 + h.body_len))))
            },
        }
    }
}

/// Takes one complete frame off the front of `buf`: its header and body.
/// Until the frame is complete, and on a bad header, `buf` is left as it
/// was.
pub fn next_frame(buf: &mut Vec<u8>) -> (r: Result<Option<(Header, Vec<u8>)>, ProtoError>)
    ensures
        (match r {
            Ok(Some((h, body))) => frame_of(old(buf)@) == Ok::<Option<(Header, Seq<u8>)>, ProtoError>(Some((h, body@)))
                && final(buf)@ == old(buf)@.subrange(16 + h.body_len, old(buf)@.len() as int),
            Ok(None) => frame_of(old(buf)@) is Ok && frame_of(old(buf)@)->Ok_0 is None && final(buf)@ == old(buf)@,
            Err(e) => frame_of(old(buf)@) == Err::<Option<(Header, Seq<u8>)>, ProtoError>(e) && final(buf)@ == old(buf)@,
        }),
{
    if buf.len() < HEADER_LEN {
        return Ok(None);
    }
    let h = match Header::parse(buf.as_slice()) {
        Ok(h) => h,
        Err(e) => {
            return Err(e);
        },
    };
    let n = h.body_len as usize;
    if buf.len() - HEADER_LEN < n {
        return Ok(None);
    }
    let ghost b0 = buf@;
    let rest = buf.split_off(HEADER_LEN + n);
    let body = buf.split_off(HEADER_LEN);
    assert(body@ =~= b0.subrange(16, 16 + h.body_len));
    *buf = rest;
    Ok(Some((h, body)))
}

/// The reply header for request `req` with a body of `len` bytes: the
/// request's opcode and stream id echoed back.
pub open spec fn reply_header(req: Header, len: u32) -> Header {
    Header { magic: MAGIC, version: VERSION, op: req.op, flags: 0, stream_id: req.stream_id, body_len: len }
}

/// The whole reply frame for request `req`: header, then `body`.
pub fn frame_reply(req: &Header, body: &Vec<u8>) -> (r: Vec<u8>)
    requires
        body@.len() <= u32::MAX,
    ensures
        r@ == header_bytes(reply_header(*req, body@.len() as u32)) + body@,
{
    let rh = Header {
        magic: MAGIC,
        version: VERSION,
        op: req.op,
        flags: 0,
        stream_id: req.stream_id,
        body_len: body.len() as u32,
    };
    let mut r: Vec<u8> = Vec::new();
    rh.encode(&mut r);
    crate::protocol::put_slice(&mut r, body.as_slice());
    assert(r@ =~= header_bytes(reply_header(*req, body@.len() as u32)) + body@);
    r
}

/// What the connection does after a request has been handled.
pub enum Followup {
    /// Send the reply.
    Reply,
    /// Send the reply, and wake a consumer waiting on each named queue.
    Wake(Vec<String>),
    /// Send nothing yet: a consumer waits on a queue.
    Wait(Wait),
}

/// Reply to a `Consume` and the registry after it; no reply while it waits.
pub open spec fn consume_effect(b: Broker, body: Seq<u8>) -> (Seq<u8>, Broker) {
    match consume_request(body) {
        None => (status_field(Status::BadRequest), b),
        Some((q, t)) => {
            let qs = with_queue(b.queues, q);
            (consume_reply(qs, q, t > 0), Broker { topics: b.topics, queues: consume_queues(qs, q) })
        },
    }
}

/// Reply to a request with opcode `op` and body `body`, and the registry after it.
pub open spec fn request_effect(c: Cluster, b: Broker, op: Op, body: Seq<u8>) -> (Seq<u8>, Broker) {
    match op {
        Op::Metadata => (metadata_reply(c, body), b),
        Op::CreateTopic => create_topic_effect(c, b, body),
        Op::CreateQueue => create_queue_effect(b, body),
        Op::BindQueue => bind_queue_effect(c, b, body),
        Op::Produce => produce_effect(c, b, body),
        Op::Consume => consume_effect(b, body),
        Op::Read => (status_field(Status::BadRequest), b),
    }
}

/// Hands a request body to the handler of its opcode; the reply body goes
/// to `out`.
pub fn dispatch(op: Op, body: &[u8], cluster: &Cluster, registry: &mut Registry, out: &mut Vec<u8>) -> (r: Followup)
    requires
        cluster.wf(),
        old(registry).wf(),
    ensures
        final(registry).wf(),
        final(out)@ == old(out)@ + request_effect(*cluster, old(registry).view(), op, body@).0,
        final(registry).view() == request_effect(*cluster, old(registry).view(), op, body@).1,
        r is Wait ==> op == Op::Consume,
        r is Wake ==> op == Op::Produce,
{
    let mut cursor: &[u8] = body;
    match op {
        Op::Metadata => {
            handle_metadata(&mut cursor, cluster, out);
            Followup::Reply
        },
        Op::CreateTopic => {
            handle_create_topic(&mut cursor, cluster, registry, out);
            Followup::Reply
        },
        Op::CreateQueue => {
            handle_create_queue(&mut cursor, registry, out);
            Followup::Reply
        },
        Op::BindQueue => {
            handle_bind_queue(&mut cursor, cluster, registry, out);
            Followup::Reply
        },
        Op::Produce => Followup::Wake(handle_produce(&mut cursor, cluster, registry, out)),
        Op::Consume => {
            let ghost b0 = registry.view();
            let w = handle_consume(&mut cursor, cluster, registry, out);
            proof {
                match consume_request(body@) {
                    None => {},
                    Some((q, t)) => {
                        assert(registry.view() == consume_effect(b0, body@).1);
                    },
                }
            }
            match w {
                Some(w) => Followup::Wait(w),
                None => Followup::Reply,
            }
        },
        Op::Read => {
            handle_read(&mut cursor, cluster, registry, out);
            Followup::Reply
        },
    }
}

} // verus!
