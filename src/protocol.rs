//! Wire codec: the fixed 16-byte frame header and the typed, length-prefixed
//! body fields, all big-endian.
use vstd::prelude::*;
use vstd::utf8::*;

verus! {

broadcast use vstd::utf8::group_utf8_lib;

pub const MAGIC: u32 = 0x51425553;

pub const VERSION: u8 = 1;

/// Length of the frame header in bytes.
pub const HEADER_LEN: usize = 16;

/// Largest byte length of a `str` field.
pub const MAX_STR_LEN: usize = 65535;

/// Big-endian bytes of a `u16`.
pub open spec fn be16(x: u16) -> Seq<u8> {
    seq![(x / 256) as u8, (x % 256) as u8]
}

/// Big-endian bytes of a `u32`.
pub open spec fn be32(x: u32) -> Seq<u8> {
    seq![
        (x / 0x1000000) as u8,
        ((x / 0x10000) % 256) as u8,
        ((x / 256) % 256) as u8,
        (x % 256) as u8,
    ]
}

/// The `u16` whose big-endian bytes start `b`.
pub open spec fn read_be16(b: Seq<u8>) -> u16
    recommends
        b.len() >= 2,
{
    (b[0] as int * 256 + b[1] as int) as u16
}

/// The `u32` whose big-endian bytes start `b`.
pub open spec fn read_be32(b: Seq<u8>) -> u32
    recommends
        b.len() >= 4,
{
    (b[0] as int * 0x1000000 + b[1] as int * 0x10000 + b[2] as int * 256 + b[3] as int) as u32
}

pub proof fn lemma_be16_round_trip(x: u16, rest: Seq<u8>)
    ensures
        read_be16(be16(x) + rest) == x,
        (be16(x) + rest).len() == rest.len() + 2,
{
    assert((be16(x) + rest)[0] == be16(x)[0]);
    assert((be16(x) + rest)[1] == be16(x)[1]);
}

pub proof fn lemma_be32_round_trip(x: u32, rest: Seq<u8>)
    ensures
        read_be32(be32(x) + rest) == x,
        (be32(x) + rest).len() == rest.len() + 4,
{
    let s = be32(x) + rest;
    assert(s[0] == be32(x)[0] && s[1] == be32(x)[1] && s[2] == be32(x)[2] && s[3] == be32(x)[3]);
    assert(((x / 0x1000000) as int) * 0x1000000 + ((x / 0x10000) % 256) as int * 0x10000 + ((x
        / 256) % 256) as int * 256 + (x % 256) as int == x as int) by (nonlinear_arith);
}


/// Request opcodes.
#[derive(Debug, Clone, Copy, PartialEq, Eq, Structural)]
pub enum Op {
    CreateTopic,
    Produce,
    Consume,
    Metadata,
    Read,
    CreateQueue,
    BindQueue,
}

impl Op {
    pub open spec fn spec_code(self) -> u8 {
        match self {
            Op::CreateTopic => 0x01,
            Op::Produce => 0x02,
            Op::Consume => 0x03,
            Op::Metadata => 0x04,
            Op::Read => 0x05,
            Op::CreateQueue => 0x06,
            Op::BindQueue => 0x07,
        }
    }

    pub open spec fn spec_from_code(v: u8) -> Option<Op> {
        if v == 0x01 {
            Some(Op::CreateTopic)
        } else if v == 0x02 {
            Some(Op::Produce)
        } else if v == 0x03 {
            Some(Op::Consume)
        } else if v == 0x04 {
            Some(Op::Metadata)
        } else if v == 0x05 {
            Some(Op::Read)
        } else if v == 0x06 {
            Some(Op::CreateQueue)
        } else if v == 0x07 {
            Some(Op::BindQueue)
        } else {
            None
        }
    }

    /// The opcode byte.
    pub fn code(self) -> (r: u8)
        ensures
            r == self.spec_code(),
    {
        match self {
            Op::CreateTopic => 0x01,
            Op::Produce => 0x02,
            Op::Consume => 0x03,
            Op::Metadata => 0x04,
            Op::Read => 0x05,
            Op::CreateQueue => 0x06,
            Op::BindQueue => 0x07,
        }
    }

    /// The opcode for byte `v`; any other byte is `InvalidOpcode(v)`.
    pub fn try_from(v: u8) -> (r: Result<Op, ProtoError>)
        ensures
            r == match Op::spec_from_code(v) {
                Some(op) => Ok(op),
                None => Err(ProtoError::InvalidOpcode(v)),
            },
    {
        match v {
            0x01 => Ok(Op::CreateTopic),
            0x02 => Ok(Op::Produce),
            0x03 => Ok(Op::Consume),
            0x04 => Ok(Op::Metadata),
            0x05 => Ok(Op::Read),
            0x06 => Ok(Op::CreateQueue),
            0x07 => Ok(Op::BindQueue),
            _ => Err(ProtoError::InvalidOpcode(v)),
        }
    }
}

pub proof fn lemma_op_code_round_trip(op: Op)
    ensures
        Op::spec_from_code(op.spec_code()) == Some(op),
{
}

/// Reply status codes.
#[derive(Debug, Clone, Copy, PartialEq, Eq, Structural)]
pub enum Status {
    Success,
    Redirect,
    Empty,
    ResourceExists,
    NotFound,
    BadRequest,
    ServerError,
}

impl Status {
    pub open spec fn spec_code(self) -> u16 {
        match self {
            Status::Success => 0,
            Status::Redirect => 10,
            Status::Empty => 11,
            Status::ResourceExists => 12,
            Status::NotFound => 13,
            Status::BadRequest => 400,
            Status::ServerError => 500,
        }
    }

    pub open spec fn spec_from_code(v: u16) -> Option<Status> {
        if v == 0 {
            Some(Status::Success)
        } else if v == 10 {
            Some(Status::Redirect)
        } else if v == 11 {
            Some(Status::Empty)
        } else if v == 12 {
            Some(Status::ResourceExists)
        } else if v == 13 {
            Some(Status::NotFound)
        } else if v == 400 {
            Some(Status::BadRequest)
        } else if v == 500 {
            Some(Status::ServerError)
        } else {
            None
        }
    }

    /// The status code on the wire.
    pub fn code(self) -> (r: u16)
        ensures
            r == self.spec_code(),
    {
        match self {
            Status::Success => 0,
            Status::Redirect => 10,
            Status::Empty => 11,
            Status::ResourceExists => 12,
            Status::NotFound => 13,
            Status::BadRequest => 400,
            Status::ServerError => 500,
        }
    }

    /// The status with code `v`, if there is one.
    pub fn from_code(v: u16) -> (r: Option<Status>)
        ensures
            r == Status::spec_from_code(v),
    {
        match v {
            0 => Some(Status::Success),
            10 => Some(Status::Redirect),
            11 => Some(Status::Empty),
            12 => Some(Status::ResourceExists),
            13 => Some(Status::NotFound),
            400 => Some(Status::BadRequest),
            500 => Some(Status::ServerError),
            _ => None,
        }
    }
}

/// Codec failures.
#[derive(Debug, Clone, Copy, PartialEq, Eq, Structural)]
pub enum ProtoError {
    InvalidMagic(u32),
    InvalidVersion(u8),
    InvalidOpcode(u8),
    Short,
    /// A `str` field longer than `MAX_STR_LEN` bytes.
    StrTooLong(usize),
}

/// The frame header: magic | version | op | flags | reserved | stream_id | body_len.
#[derive(Debug, Clone, Copy, PartialEq, Eq, Structural)]
pub struct Header {
    pub magic: u32,
    pub version: u8,
    pub op: Op,
    pub flags: u8,
    pub stream_id: u32,
    pub body_len: u32,
}

/// The 16 bytes that `encode` writes for `h`: magic and version are the
/// protocol's own, the reserved byte is zero.
pub open spec fn header_bytes(h: Header) -> Seq<u8> {
    be32(MAGIC) + seq![VERSION, h.op.spec_code(), h.flags, 0u8] + be32(h.stream_id) + be32(
        h.body_len,
    )
}

/// What the first 16 bytes of `b` say, read as a header.
pub open spec fn parse_header(b: Seq<u8>) -> Result<Header, ProtoError>
    recommends
        b.len() >= 16,
{
    let magic = read_be32(b);
    if magic != MAGIC {
        Err(ProtoError::InvalidMagic(magic))
    } else if b[4] != VERSION {
        Err(ProtoError::InvalidVersion(b[4]))
    } else {
        match Op::spec_from_code(b[5]) {
            None => Err(ProtoError::InvalidOpcode(b[5])),
            Some(op) => Ok(
                Header {
                    magic,
                    version: b[4],
                    op,
                    flags: b[6],
                    stream_id: read_be32(b.subrange(8, 12)),
                    body_len: read_be32(b.subrange(12, 16)),
                },
            ),
        }
    }
}

/// Decoding a buffer: incomplete under 16 bytes, else the parsed header.
pub open spec fn decode_header(b: Seq<u8>) -> Result<Option<Header>, ProtoError> {
    if b.len() < 16 {
        Ok(None)
    } else {
        match parse_header(b) {
            Ok(h) => Ok(Some(h)),
            Err(e) => Err(e),
        }
    }
}

/// A header that a peer of this protocol version sends.
pub open spec fn valid_header(h: Header) -> bool {
    h.magic == MAGIC && h.version == VERSION
}

fn read_u32_at(b: &[u8], i: usize) -> (r: u32)
    requires
        i + 4 <= b@.len(),
    ensures
        r == read_be32(b@.subrange(i as int, b@.len() as int)),
{
    (b[i] as u32) * 0x1000000 + (b[i + 1] as u32) * 0x10000 + (b[i + 2] as u32) * 256 + (b[i
        + 3] as u32)
}

fn put_u16(buf: &mut Vec<u8>, v: u16)
    ensures
        final(buf)@ == old(buf)@ + be16(v),
{
    buf.push((v / 256) as u8);
    buf.push((v % 256) as u8);
    assert(final(buf)@ =~= old(buf)@ + be16(v));
}

/// Appends `v` as 4 big-endian bytes.
pub fn put_u32(buf: &mut Vec<u8>, v: u32)
    ensures
        final(buf)@ == old(buf)@ + be32(v),
{
    buf.push((v / 0x1000000) as u8);
    buf.push(((v / 0x10000) % 256) as u8);
    buf.push(((v / 256) % 256) as u8);
    buf.push((v % 256) as u8);
    assert(final(buf)@ =~= old(buf)@ + be32(v));
}

/// Appends a reply status.
pub fn put_status(buf: &mut Vec<u8>, st: Status)
    ensures
        final(buf)@ == old(buf)@ + be16(st.spec_code()),
{
    put_u16(buf, st.code());
}

impl Header {
    /// Appends the header's 16 bytes to `dst`.
    pub fn encode(&self, dst: &mut Vec<u8>)
        ensures
            final(dst)@ == old(dst)@ + header_bytes(*self),
    {
        put_u32(dst, MAGIC);
        dst.push(VERSION);
        dst.push(self.op.code());
        dst.push(self.flags);
        dst.push(0u8);
        put_u32(dst, self.stream_id);
        put_u32(dst, self.body_len);
        assert(final(dst)@ =~= old(dst)@ + header_bytes(*self));
    }

    /// Reads the header in the first 16 bytes of `b`.
    pub fn parse(b: &[u8]) -> (r: Result<Header, ProtoError>)
        requires
            b@.len() >= 16,
        ensures
            r == parse_header(b@),
    {
        let magic = read_u32_at(b, 0);
        assert(b@.subrange(0, b@.len() as int) =~= b@);
        if magic != MAGIC {
            return Err(ProtoError::InvalidMagic(magic));
        }
        let version = b[4];
        if version != VERSION {
            return Err(ProtoError::InvalidVersion(version));
        }
        let op = match Op::try_from(b[5]) {
            Ok(op) => op,
            Err(e) => {
                return Err(e);
            },
        };
        let stream_id = read_u32_at(b, 8);
        let body_len = read_u32_at(b, 12);
        proof {
            let s = b@;
            assert(s.subrange(8, s.len() as int).subrange(0, 4) =~= s.subrange(8, 12).subrange(0, 4));
            assert(s.subrange(12, s.len() as int).subrange(0, 4) =~= s.subrange(12, 16).subrange(0, 4));
            assert(s.subrange(8, s.len() as int)[0] == s.subrange(8, 12)[0]);
            assert(s.subrange(8, s.len() as int)[1] == s.subrange(8, 12)[1]);
            assert(s.subrange(8, s.len() as int)[2] == s.subrange(8, 12)[2]);
            assert(s.subrange(8, s.len() as int)[3] == s.subrange(8, 12)[3]);
            assert(s.subrange(12, s.len() as int)[0] == s.subrange(12, 16)[0]);
            assert(s.subrange(12, s.len() as int)[1] == s.subrange(12, 16)[1]);
            assert(s.subrange(12, s.len() as int)[2] == s.subrange(12, 16)[2]);
            assert(s.subrange(12, s.len() as int)[3] == s.subrange(12, 16)[3]);
        }
        Ok(Header { magic, version, op, flags: b[6], stream_id, body_len })
    }

    /// Decodes a header from the front of `src`. Under 16 bytes it yields
    /// `Ok(None)`; on success the 16 bytes are taken off `src`; otherwise
    /// `src` is left as it was.
    pub fn decode(src: &mut Vec<u8>) -> (r: Result<Option<Header>, ProtoError>)
        ensures
            r == decode_header(old(src)@),
            final(src)@ == (match r {
                Ok(Some(_)) => old(src)@.subrange(16, old(src)@.len() as int),
                _ => old(src)@,
            }),
    {
        if src.len() < HEADER_LEN {
            return Ok(None);
        }
        match Header::parse(src.as_slice()) {
            Ok(h) => {
                let rest = src.split_off(HEADER_LEN);
                *src = rest;
                Ok(Some(h))
            },
            Err(e) => Err(e),
        }
    }
}

/// What `String::from_utf8_lossy` gives for bytes that are not UTF-8.
pub uninterp spec fn lossy_of(b: Seq<u8>) -> Seq<char>;

/// The text of a `str` field's bytes: decoded as UTF-8 where they are
/// valid, with replacement characters otherwise.
pub open spec fn text_of(b: Seq<u8>) -> Seq<char> {
    if valid_utf8(b) {
        decode_utf8(b)
    } else {
        lossy_of(b)
    }
}

/// Relies on `String::from_utf8_lossy`: valid UTF-8 is decoded unchanged,
/// other input depends on the bytes alone.
#[verifier::external_body]
fn lossy_string(v: &[u8]) -> (r: String)
    ensures
        valid_utf8(v@) ==> r@ == decode_utf8(v@),
        !valid_utf8(v@) ==> r@ == lossy_of(v@),
{
    String::from_utf8_lossy(v).into_owned()
}

/// The wire form of a `str` field holding `s`.
pub open spec fn str_field(s: Seq<char>) -> Seq<u8> {
    be16(encode_utf8(s).len() as u16) + encode_utf8(s)
}

/// The wire form of a `bytes` field holding `v`.
pub open spec fn bytes_field(v: Seq<u8>) -> Seq<u8> {
    be32(v.len() as u32) + v
}

/// Reading a `u32` field off the front of `b`: the value and what follows.
pub open spec fn take_u32(b: Seq<u8>) -> Option<(u32, Seq<u8>)> {
    if b.len() < 4 {
        None
    } else {
        Some((read_be32(b), b.subrange(4, b.len() as int)))
    }
}

/// Reading a `str` field off the front of `b`.
pub open spec fn take_str(b: Seq<u8>) -> Option<(Seq<char>, Seq<u8>)> {
    if b.len() < 2 {
        None
    } else {
        let n = read_be16(b) as int;
        if b.len() < 2 + n {
            None
        } else {
            Some((text_of(b.subrange(2, 2 + n)), b.subrange(2 + n, b.len() as int)))
        }
    }
}

/// Reading a `bytes` field off the front of `b`.
pub open spec fn take_bytes(b: Seq<u8>) -> Option<(Seq<u8>, Seq<u8>)> {
    if b.len() < 4 {
        None
    } else {
        let n = read_be32(b) as int;
        if b.len() < 4 + n {
            None
        } else {
            Some((b.subrange(4, 4 + n), b.subrange(4 + n, b.len() as int)))
        }
    }
}

/// Appends `s` as a `str` field. A string over `MAX_STR_LEN` bytes is
/// refused and nothing is written.
pub fn put_str(buf: &mut Vec<u8>, s: &str) -> (r: Result<(), ProtoError>)
    ensures
        r is Ok <==> encode_utf8(s@).len() <= MAX_STR_LEN,
        r is Ok ==> final(buf)@ == old(buf)@ + str_field(s@),
        r is Err ==> final(buf)@ == old(buf)@ && r == Err::<(), ProtoError>(
            ProtoError::StrTooLong(encode_utf8(s@).len() as usize),
        ),
{
    let bytes = s.as_bytes();
    let n = bytes.len();
    if n > MAX_STR_LEN {
        return Err(ProtoError::StrTooLong(n));
    }
    put_u16(buf, n as u16);
    put_slice(buf, bytes);
    assert(final(buf)@ =~= old(buf)@ + str_field(s@));
    Ok(())
}

pub(crate) fn put_slice(buf: &mut Vec<u8>, v: &[u8])
    ensures
        final(buf)@ == old(buf)@ + v@,
{
    let mut i: usize = 0;
    while i < v.len()
        invariant
            i <= v@.len(),
            buf@ == old(buf)@ + v@.subrange(0, i as int),
        decreases v@.len() - i,
    {
        buf.push(v[i]);
        i = i + 1;
        assert(buf@ =~= old(buf)@ + v@.subrange(0, i as int));
    }
    assert(v@.subrange(0, i as int) =~= v@);
}

/// Appends `v` as a `bytes` field.
pub fn put_bytes(buf: &mut Vec<u8>, v: &[u8])
    requires
        v@.len() <= u32::MAX,
    ensures
        final(buf)@ == old(buf)@ + bytes_field(v@),
{
    put_u32(buf, v.len() as u32);
    put_slice(buf, v);
    assert(final(buf)@ =~= old(buf)@ + bytes_field(v@));
}

/// Reads a `u32` field off the front of `*b`; on underflow yields `None`
/// and leaves `*b` as it was.
pub fn get_u32(b: &mut &[u8]) -> (r: Option<u32>)
    ensures
        r == (match take_u32(old(b)@) {
            Some((v, _)) => Some(v),
            None => None,
        }),
        final(b)@ == (match take_u32(old(b)@) {
            Some((_, rest)) => rest,
            None => old(b)@,
        }),
{
    let s: &[u8] = *b;
    if s.len() < 4 {
        return None;
    }
    let v = read_u32_at(s, 0);
    assert(s@.subrange(0, s@.len() as int) =~= s@);
    *b = &s[4..s.len()];
    Some(v)
}

/// Reads a `str` field off the front of `*b`; on underflow yields `None`
/// and leaves `*b` as it was.
pub fn get_str(b: &mut &[u8]) -> (r: Option<String>)
    ensures
        (match r {
            Some(t) => take_str(old(b)@) == Some((t@, final(b)@)),
            None => take_str(old(b)@) is None && final(b)@ == old(b)@,
        }),
{
    let s: &[u8] = *b;
    if s.len() < 2 {
        return None;
    }
    let n = (s[0] as usize) * 256 + (s[1] as usize);
    if s.len() - 2 < n {
        return None;
    }
    let t = lossy_string(&s[2..2 + n]);
    *b = &s[2 + n..s.len()];
    Some(t)
}

/// Reads a `bytes` field off the front of `*b`; on underflow yields `None`
/// and leaves `*b` as it was.
pub fn get_bytes(b: &mut &[u8]) -> (r: Option<Vec<u8>>)
    ensures
        (match r {
            Some(v) => take_bytes(old(b)@) == Some((v@, final(b)@)),
            None => take_bytes(old(b)@) is None && final(b)@ == old(b)@,
        }),
{
    let s: &[u8] = *b;
    if s.len() < 4 {
        return None;
    }
    let n = read_u32_at(s, 0) as usize;
    assert(s@.subrange(0, s@.len() as int) =~= s@);
    if s.len() - 4 < n {
        return None;
    }
    let v = vstd::slice::slice_to_vec(&s[4..4 + n]);
    *b = &s[4 + n..s.len()];
    Some(v)
}

/// Decoding what `encode` wrote gives the header back, for every header
/// with the protocol's magic and version, whatever follows it.
pub proof fn lemma_header_round_trip(h: Header, rest: Seq<u8>)
    requires
        valid_header(h),
    ensures
        decode_header(header_bytes(h) + rest) == Ok::<Option<Header>, ProtoError>(Some(h)),
        (header_bytes(h) + rest).subrange(16, (header_bytes(h) + rest).len() as int) == rest,
{
    let b = header_bytes(h) + rest;
    lemma_be32_round_trip(MAGIC, b.subrange(4, b.len() as int));
    assert(b =~= be32(MAGIC) + b.subrange(4, b.len() as int));
    lemma_be32_round_trip(h.stream_id, seq![]);
    lemma_be32_round_trip(h.body_len, seq![]);
    assert(b.subrange(8, 12) =~= be32(h.stream_id) + seq![]);
    assert(b.subrange(12, 16) =~= be32(h.body_len) + seq![]);
    lemma_op_code_round_trip(h.op);
    assert(b.subrange(16, b.len() as int) =~= rest);
}

/// A `u32` field reads back as written, whatever follows it.
pub proof fn lemma_u32_round_trip(v: u32, rest: Seq<u8>)
    ensures
        take_u32(be32(v) + rest) == Some((v, rest)),
{
    lemma_be32_round_trip(v, rest);
    assert((be32(v) + rest).subrange(4, rest.len() + 4 as int) =~= rest);
}

/// A `str` field of at most `MAX_STR_LEN` bytes reads back as written,
/// whatever follows it.
pub proof fn lemma_str_round_trip(s: Seq<char>, rest: Seq<u8>)
    requires
        encode_utf8(s).len() <= MAX_STR_LEN,
    ensures
        take_str(str_field(s) + rest) == Some((s, rest)),
{
    let e = encode_utf8(s);
    let b = str_field(s) + rest;
    lemma_be16_round_trip(e.len() as u16, e + rest);
    assert(b =~= be16(e.len() as u16) + (e + rest));
    assert(b.subrange(2, 2 + e.len() as int) =~= e);
    assert(b.subrange(2 + e.len() as int, b.len() as int) =~= rest);
}

/// A `bytes` field reads back as written, whatever follows it.
pub proof fn lemma_bytes_round_trip(v: Seq<u8>, rest: Seq<u8>)
    requires
        v.len() <= u32::MAX,
    ensures
        take_bytes(bytes_field(v) + rest) == Some((v, rest)),
{
    let b = bytes_field(v) + rest;
    lemma_be32_round_trip(v.len() as u32, v + rest);
    assert(b =~= be32(v.len() as u32) + (v + rest));
    assert(b.subrange(4, 4 + v.len() as int) =~= v);
    assert(b.subrange(4 + v.len() as int, b.len() as int) =~= rest);
}

} // verus!
