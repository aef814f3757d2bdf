//! Wire format: a PSK handshake, then Yamux. Each logical tunnel stream starts with a
//! small header (version, big-endian name length, UTF-8 tunnel name) before the
//! application bytes.

use vstd::prelude::*;
use vstd::string::*;
use vstd::utf8::*;

use crate::crypto::ct_eq_bytes;
use crate::text::{decimal, push_decimal, push_str, push_string, string_from_utf8};

verus! {

/// Magic bytes that open the server banner and the client proof.
pub const MAGIC: [u8; 8] = [0x54u8, 0x55, 0x4e, 0x4e, 0x4c, 0x4e, 0x30, 0x31];

/// Handshake protocol version.
pub const PROTOCOL_VERSION: u16 = 1;

/// Longest tunnel name, in UTF-8 bytes.
pub const MAX_TUNNEL_NAME_LEN: usize = 255;

/// Version byte of a stream header.
pub const STREAM_HEADER_VERSION: u8 = 1;

/// First message from the server after TCP accept: magic, version, server random.
pub const SERVER_BANNER_LEN: usize = 42;

/// Client response: magic, version, client random, HMAC-SHA256 tag.
pub const CLIENT_PROOF_LEN: usize = 74;

/// Final server message: HMAC-SHA256 tag.
pub const SERVER_PROOF_LEN: usize = 32;

#[verifier::external_type_specification]
#[verifier::external_body]
pub struct ExIoError(std::io::Error);

/// Errors of the handshake and of stream headers.
#[derive(Debug)]
pub enum ProtocolError {
    Io(std::io::Error),
    UnexpectedEof,
    BadMagic,
    BadVersion(u16),
    InvalidHandshake,
    TunnelNameTooLong,
    BadStreamVersion(u8),
    InvalidTunnelNameUtf8,
}

/// The text of an I/O error, as its `Display` shows it.
#[verifier::external_body]
pub(crate) fn io_error_text(e: &std::io::Error) -> String {
    format!("{e}")
}

/// The message of every error but `Io`, whose message is `io: ` and the I/O error's text.
pub open spec fn protocol_error_message(e: ProtocolError) -> Seq<char> {
    match e {
        ProtocolError::Io(_) => "io: "@,
        ProtocolError::UnexpectedEof => "unexpected eof"@,
        ProtocolError::BadMagic => "bad magic"@,
        ProtocolError::BadVersion(v) => "unsupported protocol version "@ + decimal(v as nat),
        ProtocolError::InvalidHandshake => "invalid handshake"@,
        ProtocolError::TunnelNameTooLong => "tunnel name too long (max "@ + decimal(
            MAX_TUNNEL_NAME_LEN as nat,
        ) + ")"@,
        ProtocolError::BadStreamVersion(v) => "invalid stream header version "@ + decimal(
            v as nat,
        ),
        ProtocolError::InvalidTunnelNameUtf8 => "tunnel name is not valid UTF-8"@,
    }
}

impl ProtocolError {
    /// The human-readable message of the error.
    pub fn message(&self) -> (res: String)
        ensures
            self is Io ==> res@.len() >= 4 && res@.subrange(0, 4) == protocol_error_message(*self),
            !(self is Io) ==> res@ == protocol_error_message(*self),
    {
        match self {
            ProtocolError::Io(e) => {
                let mut s = String::from_str("io: ");
                let t = io_error_text(e);
                push_string(&mut s, &t);
                proof {
                    reveal_strlit("io: ");
                    assert(s@.subrange(0, 4) =~= "io: "@);
                }
                s
            },
            ProtocolError::UnexpectedEof => String::from_str("unexpected eof"),
            ProtocolError::BadMagic => String::from_str("bad magic"),
            ProtocolError::BadVersion(v) => {
                let mut s = String::from_str("unsupported protocol version ");
                push_decimal(&mut s, *v as u64);
                s
            },
            ProtocolError::InvalidHandshake => String::from_str("invalid handshake"),
            ProtocolError::TunnelNameTooLong => {
                let mut s = String::from_str("tunnel name too long (max ");
                push_decimal(&mut s, MAX_TUNNEL_NAME_LEN as u64);
                push_str(&mut s, ")");
                s
            },
            ProtocolError::BadStreamVersion(v) => {
                let mut s = String::from_str("invalid stream header version ");
                push_decimal(&mut s, *v as u64);
                s
            },
            ProtocolError::InvalidTunnelNameUtf8 => String::from_str(
                "tunnel name is not valid UTF-8",
            ),
        }
    }
}

/// Big-endian bytes of a 16-bit value.
pub open spec fn be16(n: nat) -> Seq<u8> {
    seq![(n / 256) as u8, (n % 256) as u8]
}

/// The value of two big-endian bytes.
pub open spec fn from_be16(hi: u8, lo: u8) -> nat {
    (hi as nat) * 256 + (lo as nat)
}

/// A stream header for a tunnel name given by its UTF-8 bytes.
pub open spec fn stream_header_bytes(name: Seq<u8>) -> Seq<u8> {
    seq![STREAM_HEADER_VERSION] + be16(name.len()) + name
}

/// Encodes the stream preamble: version byte, big-endian `u16` name length, then the
/// name's UTF-8 bytes. Names longer than `MAX_TUNNEL_NAME_LEN` bytes are refused.
pub fn encode_stream_header(tunnel_name: &str) -> (res: Result<Vec<u8>, ProtocolError>)
    ensures
        tunnel_name.spec_bytes().len() > MAX_TUNNEL_NAME_LEN ==> res matches Err(
            ProtocolError::TunnelNameTooLong,
        ),
        tunnel_name.spec_bytes().len() <= MAX_TUNNEL_NAME_LEN ==> (res matches Ok(v) && v@
            == stream_header_bytes(tunnel_name.spec_bytes())),
{
    let b = tunnel_name.as_bytes();
    if b.len() > MAX_TUNNEL_NAME_LEN {
        return Err(ProtocolError::TunnelNameTooLong);
    }
    let len = b.len();
    let mut v: Vec<u8> = Vec::with_capacity(3 + len);
    v.push(STREAM_HEADER_VERSION);
    v.push((len / 256) as u8);
    v.push((len % 256) as u8);
    let ghost start = v@;
    assert(start == seq![STREAM_HEADER_VERSION] + be16(len as nat));
    for i in 0..len
        invariant
            len == b@.len(),
            v@ == start + b@.subrange(0, i as int),
    {
        v.push(b[i]);
        assert(b@.subrange(0, i + 1) == b@.subrange(0, i as int).push(b@[i as int]));
        assert(v@ =~= start + b@.subrange(0, i + 1));
    }
    assert(b@.subrange(0, len as int) == b@);
    Ok(v)
}

/// Where a stream-header decoder stands.
#[derive(Clone, Copy, Debug, PartialEq, Eq, Structural)]
pub enum HeaderStage {
    /// Waiting for the version byte.
    Version,
    /// Waiting for the two length bytes.
    Length,
    /// Waiting for the name, of the given length in bytes.
    Name(u16),
    /// The header was read, or refused.
    Done,
}

/// How many bytes the decoder asks for next.
pub open spec fn stage_wants(stage: HeaderStage) -> nat {
    match stage {
        HeaderStage::Version => 1,
        HeaderStage::Length => 2,
        HeaderStage::Name(n) => n as nat,
        HeaderStage::Done => 0,
    }
}

/// One step of stream-header decoding: the next stage and what the step yields
/// (`Ok(None)` for "read on", `Ok(Some(name))` for the decoded tunnel name).
pub open spec fn header_step(stage: HeaderStage, chunk: Seq<u8>) -> (HeaderStage, Result<
    Option<Seq<char>>,
    ProtocolError,
>) {
    match stage {
        HeaderStage::Version => if chunk[0] != STREAM_HEADER_VERSION {
            (HeaderStage::Done, Err(ProtocolError::BadStreamVersion(chunk[0])))
        } else {
            (HeaderStage::Length, Ok(None))
        },
        HeaderStage::Length => {
            let n = from_be16(chunk[0], chunk[1]);
            if n > MAX_TUNNEL_NAME_LEN {
                (HeaderStage::Done, Err(ProtocolError::TunnelNameTooLong))
            } else if n == 0 {
                (HeaderStage::Done, Ok(Some(Seq::<char>::empty())))
            } else {
                (HeaderStage::Name(n as u16), Ok(None))
            }
        },
        HeaderStage::Name(_) => if valid_utf8(chunk) {
            (HeaderStage::Done, Ok(Some(decode_utf8(chunk))))
        } else {
            (HeaderStage::Done, Err(ProtocolError::InvalidTunnelNameUtf8))
        },
        HeaderStage::Done => (HeaderStage::Done, Ok(None)),
    }
}

/// Runs the decoder over `bytes`, taking from the front exactly what each stage asks
/// for: `None` when the bytes run out first, else the outcome and the number of
/// bytes the header took.
pub open spec fn decode_stream_header_from(stage: HeaderStage, bytes: Seq<u8>, used: nat) -> Option<
    Result<(Seq<char>, nat), ProtocolError>,
>
    decreases 3 - stage_rank(stage),
{
    if stage is Done {
        None
    } else if bytes.len() < used + stage_wants(stage) {
        None
    } else {
        let chunk = bytes.subrange(used as int, (used + stage_wants(stage)) as int);
        let (next, out) = header_step(stage, chunk);
        let used2 = used + stage_wants(stage);
        match out {
            Err(e) => Some(Err(e)),
            Ok(Some(name)) => Some(Ok((name, used2))),
            Ok(None) => if stage_rank(next) > stage_rank(stage) {
                decode_stream_header_from(next, bytes, used2)
            } else {
                None
            },
        }
    }
}

/// Order of the stages, for termination.
pub open spec fn stage_rank(stage: HeaderStage) -> nat {
    match stage {
        HeaderStage::Version => 0,
        HeaderStage::Length => 1,
        HeaderStage::Name(_) => 2,
        HeaderStage::Done => 3,
    }
}

/// The stream header at the front of `bytes`, decoded from the start.
pub open spec fn decode_stream_header(bytes: Seq<u8>) -> Option<
    Result<(Seq<char>, nat), ProtocolError>,
> {
    decode_stream_header_from(HeaderStage::Version, bytes, 0)
}

/// Reads a stream header incrementally: the caller reads exactly
/// [`StreamHeaderDecoder::wants`] bytes and hands them to [`StreamHeaderDecoder::feed`]
/// until it yields the name or an error.
pub struct StreamHeaderDecoder {
    stage: HeaderStage,
}

impl View for StreamHeaderDecoder {
    type V = HeaderStage;

    closed spec fn view(&self) -> HeaderStage {
        self.stage
    }
}

impl StreamHeaderDecoder {
    /// A decoder at the start of a stream.
    pub fn new() -> (d: Self)
        ensures
            d@ == HeaderStage::Version,
    {
        StreamHeaderDecoder { stage: HeaderStage::Version }
    }

    /// Number of bytes to read next (0 once the header is read or refused).
    pub fn wants(&self) -> (n: usize)
        ensures
            n == stage_wants(self@),
    {
        match self.stage {
            HeaderStage::Version => 1,
            HeaderStage::Length => 2,
            HeaderStage::Name(n) => n as usize,
            HeaderStage::Done => 0,
        }
    }

    /// Whether the header was read or refused.
    pub fn is_done(&self) -> (b: bool)
        ensures
            b == (self@ is Done),
    {
        match self.stage {
            HeaderStage::Done => true,
            _ => false,
        }
    }

    /// Consumes the next chunk, of exactly the length [`Self::wants`] asked for.
    pub fn feed(&mut self, chunk: &[u8]) -> (res: Result<Option<String>, ProtocolError>)
        requires
            !(old(self)@ is Done),
            chunk@.len() == stage_wants(old(self)@),
        ensures
            final(self)@ == header_step(old(self)@, chunk@).0,
            match res {
                Ok(Some(s)) => header_step(old(self)@, chunk@).1 == Ok::<
                    Option<Seq<char>>,
                    ProtocolError,
                >(Some(s@)),
                Ok(None) => header_step(old(self)@, chunk@).1 == Ok::<
                    Option<Seq<char>>,
                    ProtocolError,
                >(None),
                Err(e) => header_step(old(self)@, chunk@).1 == Err::<Option<Seq<char>>, _>(e),
            },
    {
        match self.stage {
            HeaderStage::Version => {
                if chunk[0] != STREAM_HEADER_VERSION {
                    self.stage = HeaderStage::Done;
                    Err(ProtocolError::BadStreamVersion(chunk[0]))
                } else {
                    self.stage = HeaderStage::Length;
                    Ok(None)
                }
            },
            HeaderStage::Length => {
                let n: u16 = (chunk[0] as u16) * 256 + (chunk[1] as u16);
                if n as usize > MAX_TUNNEL_NAME_LEN {
                    self.stage = HeaderStage::Done;
                    Err(ProtocolError::TunnelNameTooLong)
                } else if n == 0 {
                    self.stage = HeaderStage::Done;
                    let s = String::new();
                    assert(s@ =~= Seq::<char>::empty());
                    Ok(Some(s))
                } else {
                    self.stage = HeaderStage::Name(n);
                    Ok(None)
                }
            },
            HeaderStage::Name(_) => {
                self.stage = HeaderStage::Done;
                let mut bytes: Vec<u8> = Vec::new();
                let len = chunk.len();
                for i in 0..len
                    invariant
                        len == chunk@.len(),
                        bytes@ == chunk@.subrange(0, i as int),
                {
                    bytes.push(chunk[i]);
                    assert(chunk@.subrange(0, i + 1) == chunk@.subrange(0, i as int).push(
                        chunk@[i as int],
                    ));
                }
                assert(chunk@.subrange(0, len as int) == chunk@);
                match string_from_utf8(bytes) {
                    Some(s) => Ok(Some(s)),
                    None => Err(ProtocolError::InvalidTunnelNameUtf8),
                }
            },
            HeaderStage::Done => Ok(None),
        }
    }
}

/// A stream header decodes back to the tunnel name it was encoded from: whatever
/// application bytes follow, the decoder reads exactly the header and yields the name.
pub proof fn lemma_stream_header_roundtrip(name: Seq<char>, rest: Seq<u8>)
    requires
        encode_utf8(name).len() <= MAX_TUNNEL_NAME_LEN,
    ensures
        decode_stream_header(stream_header_bytes(encode_utf8(name)) + rest) == Some(
            Ok::<(Seq<char>, nat), ProtocolError>((name, 3 + encode_utf8(name).len())),
        ),
{
    let b = encode_utf8(name);
    let all = stream_header_bytes(b) + rest;
    let len = b.len();
    encode_utf8_valid_utf8(name);
    encode_utf8_decode_utf8(name);
    assert(all.subrange(0, 1) =~= seq![STREAM_HEADER_VERSION]);
    assert(all.subrange(1, 3) =~= be16(len));
    assert((len / 256) as u8 == 0u8 && (len % 256) as u8 == len as u8);
    assert(from_be16(all.subrange(1, 3)[0], all.subrange(1, 3)[1]) == len);
    assert(all.subrange(3, 3 + len as int) =~= b);
    assert(header_step(HeaderStage::Version, all.subrange(0, 1)) == (
        HeaderStage::Length,
        Ok::<Option<Seq<char>>, ProtocolError>(None),
    ));
    assert(decode_stream_header_from(HeaderStage::Version, all, 0) == decode_stream_header_from(
        HeaderStage::Length,
        all,
        1,
    ));
    if len == 0 {
        assert(name =~= Seq::<char>::empty());
        assert(decode_stream_header_from(HeaderStage::Length, all, 1) == Some(
            Ok::<(Seq<char>, nat), ProtocolError>((name, 3)),
        ));
    } else {
        let st = HeaderStage::Name(len as u16);
        assert(stage_wants(st) == len);
        assert(header_step(HeaderStage::Length, all.subrange(1, 3)) == (
            st,
            Ok::<Option<Seq<char>>, ProtocolError>(None),
        ));
        assert(decode_stream_header_from(HeaderStage::Length, all, 1) == decode_stream_header_from(
            st,
            all,
            3,
        ));
        assert(header_step(st, all.subrange(3, 3 + len as int)) == (
            HeaderStage::Done,
            Ok::<Option<Seq<char>>, ProtocolError>(Some(name)),
        ));
    }
}

/// Constant-time comparison of two 32-byte values.
pub fn ct_eq_32(a: &[u8; 32], b: &[u8; 32]) -> (eq: bool)
    ensures
        eq == (a@ == b@),
{
    ct_eq_bytes(a.as_slice(), b.as_slice())
}

} // verus!
