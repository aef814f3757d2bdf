//! The PSK handshake as two state machines. The server sends a banner (magic,
//! version, server random); the client answers with magic, version, its random and
//! an HMAC-SHA256 tag over both randoms under the PSK; the server checks the tag and
//! answers with its own tag, which the client checks in turn. The caller moves the
//! bytes; these types decide.

use vstd::prelude::*;
use vstd::slice::slice_to_vec;

use crate::crypto::{ct_eq_bytes, hmac_sha256, hmac_sha256_tag, random_32};
use crate::protocol::{
    be16, from_be16, ProtocolError, CLIENT_PROOF_LEN, MAGIC, PROTOCOL_VERSION, SERVER_BANNER_LEN,
    SERVER_PROOF_LEN,
};

verus! {

/// Domain-separation label of the client's tag.
pub const LABEL_CLIENT: [u8; 30] = [
    0x74u8, 0x75, 0x6e, 0x6e, 0x65, 0x6c, 0x69, 0x6f, 0x6e, 0x2d, 0x68, 0x61, 0x6e, 0x64, 0x73,
    0x68, 0x61, 0x6b, 0x65, 0x2d, 0x63, 0x6c, 0x69, 0x65, 0x6e, 0x74, 0x2d, 0x76, 0x31, 0x0,
];

/// Domain-separation label of the server's tag.
pub const LABEL_SERVER: [u8; 30] = [
    0x74u8, 0x75, 0x6e, 0x6e, 0x65, 0x6c, 0x69, 0x6f, 0x6e, 0x2d, 0x68, 0x61, 0x6e, 0x64, 0x73,
    0x68, 0x61, 0x6b, 0x65, 0x2d, 0x73, 0x65, 0x72, 0x76, 0x65, 0x72, 0x2d, 0x76, 0x31, 0x0,
];

/// Magic and version, the opening of the banner and of the client proof.
pub open spec fn preamble() -> Seq<u8> {
    MAGIC@ + be16(PROTOCOL_VERSION as nat)
}

/// The server banner for a server random.
pub open spec fn banner_bytes(server_random: Seq<u8>) -> Seq<u8> {
    preamble() + server_random
}

/// The client's tag: HMAC-SHA256 under the PSK of the client label and both randoms.
pub open spec fn client_tag(psk: Seq<u8>, server_random: Seq<u8>, client_random: Seq<u8>) -> Seq<
    u8,
> {
    hmac_sha256_tag(psk, LABEL_CLIENT@ + server_random + client_random)@
}

/// The server's tag: HMAC-SHA256 under the PSK of the server label and both randoms.
pub open spec fn server_tag(psk: Seq<u8>, server_random: Seq<u8>, client_random: Seq<u8>) -> Seq<
    u8,
> {
    hmac_sha256_tag(psk, LABEL_SERVER@ + server_random + client_random)@
}

/// The client's answer to a banner.
pub open spec fn client_proof_bytes(
    psk: Seq<u8>,
    server_random: Seq<u8>,
    client_random: Seq<u8>,
) -> Seq<u8> {
    preamble() + client_random + client_tag(psk, server_random, client_random)
}

/// Checks the magic and the version at the front of a handshake message.
pub open spec fn check_preamble(msg: Seq<u8>) -> Result<(), ProtocolError> {
    if msg.subrange(0, 8) != MAGIC@ {
        Err(ProtocolError::BadMagic)
    } else if from_be16(msg[8], msg[9]) != PROTOCOL_VERSION as nat {
        Err(ProtocolError::BadVersion(from_be16(msg[8], msg[9]) as u16))
    } else {
        Ok(())
    }
}

/// The server's verdict on a client proof: the server tag to send back, or why the
/// proof is refused.
pub open spec fn server_verdict(psk: Seq<u8>, server_random: Seq<u8>, msg: Seq<u8>) -> Result<
    Seq<u8>,
    ProtocolError,
> {
    match check_preamble(msg) {
        Err(e) => Err(e),
        Ok(()) => {
            let client_random = msg.subrange(10, 42);
            if msg.subrange(42, 74) == client_tag(psk, server_random, client_random) {
                Ok(server_tag(psk, server_random, client_random))
            } else {
                Err(ProtocolError::InvalidHandshake)
            }
        },
    }
}

/// `a`, `b` and `c` in one vector.
fn concat3(a: &[u8], b: &[u8], c: &[u8]) -> (v: Vec<u8>)
    ensures
        v@ == a@ + b@ + c@,
{
    let mut v: Vec<u8> = Vec::new();
    v.extend_from_slice(a);
    v.extend_from_slice(b);
    v.extend_from_slice(c);
    v
}

/// A copy of `msg[from..to]`.
fn copy_range(msg: &[u8], from: usize, to: usize) -> (v: Vec<u8>)
    requires
        from <= to <= msg@.len(),
    ensures
        v@ == msg@.subrange(from as int, to as int),
{
    let mut v: Vec<u8> = Vec::new();
    let mut i = from;
    while i < to
        invariant
            from <= i <= to <= msg@.len(),
            v@ == msg@.subrange(from as int, i as int),
        decreases to - i,
    {
        v.push(msg[i]);
        assert(msg@.subrange(from as int, i + 1) == msg@.subrange(from as int, i as int).push(
            msg@[i as int],
        ));
        i = i + 1;
    }
    v
}

/// The client's tag, computed.
fn mac_client_proof(psk: &[u8], server_random: &[u8], client_random: &[u8]) -> (t: [u8; 32])
    ensures
        t@ == client_tag(psk@, server_random@, client_random@),
{
    let msg = concat3(LABEL_CLIENT.as_slice(), server_random, client_random);
    hmac_sha256(psk, msg.as_slice())
}

/// The server's tag, computed.
fn mac_server_proof(psk: &[u8], server_random: &[u8], client_random: &[u8]) -> (t: [u8; 32])
    ensures
        t@ == server_tag(psk@, server_random@, client_random@),
{
    let msg = concat3(LABEL_SERVER.as_slice(), server_random, client_random);
    hmac_sha256(psk, msg.as_slice())
}

/// Checks magic and version; see [`check_preamble`].
fn check_preamble_exec(msg: &[u8]) -> (res: Result<(), ProtocolError>)
    requires
        msg@.len() >= 10,
    ensures
        res == check_preamble(msg@),
{
    let mut i: usize = 0;
    while i < 8
        invariant
            msg@.len() >= 10,
            i <= 8,
            forall|k: int| 0 <= k < i ==> msg@[k] == MAGIC@[k],
        decreases 8 - i,
    {
        if msg[i] != MAGIC[i] {
            assert(msg@.subrange(0, 8)[i as int] != MAGIC@[i as int]);
            return Err(ProtocolError::BadMagic);
        }
        i = i + 1;
    }
    assert(msg@.subrange(0, 8) =~= MAGIC@);
    let ver: u16 = (msg[8] as u16) * 256 + (msg[9] as u16);
    if ver != PROTOCOL_VERSION {
        return Err(ProtocolError::BadVersion(ver));
    }
    Ok(())
}

/// Magic and version bytes.
fn preamble_exec() -> (v: Vec<u8>)
    ensures
        v@ == preamble(),
{
    let mut v: Vec<u8> = Vec::new();
    v.extend_from_slice(MAGIC.as_slice());
    v.push((PROTOCOL_VERSION / 256) as u8);
    v.push((PROTOCOL_VERSION % 256) as u8);
    assert(v@ =~= preamble());
    v
}

/// Server side of the handshake, after the banner went out.
pub struct ServerHandshake {
    psk: Vec<u8>,
    server_random: [u8; 32],
}

impl View for ServerHandshake {
    /// The PSK and the server random.
    type V = (Seq<u8>, Seq<u8>);

    closed spec fn view(&self) -> (Seq<u8>, Seq<u8>) {
        (self.psk@, self.server_random@)
    }
}

impl ServerHandshake {
    /// Opens the handshake with a given server random; returns the banner to send.
    pub fn with_random(psk: &[u8], server_random: [u8; 32]) -> (res: (Self, Vec<u8>))
        ensures
            res.0@ == (psk@, server_random@),
            res.1@ == banner_bytes(server_random@),
    {
        let mut banner = preamble_exec();
        banner.extend_from_slice(server_random.as_slice());
        let hs = ServerHandshake { psk: slice_to_vec(psk), server_random };
        (hs, banner)
    }

    /// Opens the handshake with a fresh server random from the operating system;
    /// returns the banner to send, or the random source's I/O error.
    pub fn start(psk: &[u8]) -> (res: Result<(Self, Vec<u8>), ProtocolError>)
        ensures
            res matches Ok((hs, banner)) ==> hs@.0 == psk@ && hs@.1.len() == 32 && banner@
                == banner_bytes(hs@.1),
            res matches Err(e) ==> e is Io,
    {
        match random_32() {
            Ok(r) => Ok(Self::with_random(psk, r)),
            Err(e) => Err(ProtocolError::Io(e)),
        }
    }

    /// Checks the client's proof (exactly `CLIENT_PROOF_LEN` bytes). On success
    /// returns the server tag to send back, which completes the handshake.
    pub fn verify_client_proof(&self, msg: &[u8]) -> (res: Result<Vec<u8>, ProtocolError>)
        requires
            msg@.len() == CLIENT_PROOF_LEN,
        ensures
            match res {
                Ok(v) => server_verdict(self@.0, self@.1, msg@) == Ok::<Seq<u8>, ProtocolError>(
                    v@,
                ),
                Err(e) => server_verdict(self@.0, self@.1, msg@) == Err::<Seq<u8>, ProtocolError>(
                    e,
                ),
            },
    {
        match check_preamble_exec(msg) {
            Err(e) => return Err(e),
            Ok(()) => {},
        }
        let client_random = copy_range(msg, 10, 42);
        let got = copy_range(msg, 42, 74);
        let expected = mac_client_proof(
            self.psk.as_slice(),
            self.server_random.as_slice(),
            client_random.as_slice(),
        );
        if !ct_eq_bytes(got.as_slice(), expected.as_slice()) {
            return Err(ProtocolError::InvalidHandshake);
        }
        let reply = mac_server_proof(
            self.psk.as_slice(),
            self.server_random.as_slice(),
            client_random.as_slice(),
        );
        Ok(slice_to_vec(reply.as_slice()))
    }
}

/// Client side of the handshake, after its proof went out.
pub struct ClientHandshake {
    psk: Vec<u8>,
    server_random: Vec<u8>,
    client_random: [u8; 32],
}

impl View for ClientHandshake {
    /// The PSK, the server random and the client random.
    type V = (Seq<u8>, Seq<u8>, Seq<u8>);

    closed spec fn view(&self) -> (Seq<u8>, Seq<u8>, Seq<u8>) {
        (self.psk@, self.server_random@, self.client_random@)
    }
}

impl ClientHandshake {
    /// Answers a banner (exactly `SERVER_BANNER_LEN` bytes) with a given client
    /// random; returns the proof to send.
    pub fn respond_with_random(psk: &[u8], banner: &[u8], client_random: [u8; 32]) -> (res:
        Result<(Self, Vec<u8>), ProtocolError>)
        requires
            banner@.len() == SERVER_BANNER_LEN,
        ensures
            check_preamble(banner@) matches Err(e) ==> res == Err::<(Self, Vec<u8>), _>(e),
            check_preamble(banner@) is Ok ==> (res matches Ok((hs, proof)) && hs@ == (
                psk@,
                banner@.subrange(10, 42),
                client_random@,
            ) && proof@ == client_proof_bytes(psk@, banner@.subrange(10, 42), client_random@)),
    {
        match check_preamble_exec(banner) {
            Err(e) => return Err(e),
            Ok(()) => {},
        }
        Ok(Self::answer(psk, banner, client_random))
    }

    fn answer(psk: &[u8], banner: &[u8], client_random: [u8; 32]) -> (res: (Self, Vec<u8>))
        requires
            banner@.len() == SERVER_BANNER_LEN,
        ensures
            res.0@ == (psk@, banner@.subrange(10, 42), client_random@),
            res.1@ == client_proof_bytes(psk@, banner@.subrange(10, 42), client_random@),
    {
        let server_random = copy_range(banner, 10, 42);
        let tag = mac_client_proof(psk, server_random.as_slice(), client_random.as_slice());
        let mut proof = preamble_exec();
        proof.extend_from_slice(client_random.as_slice());
        proof.extend_from_slice(tag.as_slice());
        let hs = ClientHandshake { psk: slice_to_vec(psk), server_random, client_random };
        (hs, proof)
    }

    /// Answers a banner with a fresh client random from the operating system. A banner
    /// with the wrong magic or version is refused before any random is drawn.
    pub fn respond(psk: &[u8], banner: &[u8]) -> (res: Result<(Self, Vec<u8>), ProtocolError>)
        requires
            banner@.len() == SERVER_BANNER_LEN,
        ensures
            check_preamble(banner@) matches Err(e) ==> res == Err::<(Self, Vec<u8>), _>(e),
            check_preamble(banner@) is Ok ==> match res {
                Ok((hs, proof)) => hs@.0 == psk@ && hs@.1 == banner@.subrange(10, 42)
                    && hs@.2.len() == 32 && proof@ == client_proof_bytes(psk@, hs@.1, hs@.2),
                Err(e) => e is Io,
            },
    {
        match check_preamble_exec(banner) {
            Err(e) => return Err(e),
            Ok(()) => {},
        }
        match random_32() {
            Ok(r) => Ok(Self::answer(psk, banner, r)),
            Err(e) => Err(ProtocolError::Io(e)),
        }
    }

    /// Checks the server's tag (exactly `SERVER_PROOF_LEN` bytes); success completes
    /// the handshake.
    pub fn verify_server_proof(&self, mac: &[u8]) -> (res: Result<(), ProtocolError>)
        requires
            mac@.len() == SERVER_PROOF_LEN,
        ensures
            res is Ok <==> mac@ == server_tag(self@.0, self@.1, self@.2),
            res matches Err(e) ==> e is InvalidHandshake,
    {
        let expected = mac_server_proof(
            self.psk.as_slice(),
            self.server_random.as_slice(),
            self.client_random.as_slice(),
        );
        if ct_eq_bytes(mac, expected.as_slice()) {
            Ok(())
        } else {
            Err(ProtocolError::InvalidHandshake)
        }
    }
}

/// Two peers with the same PSK complete the handshake: the client accepts the
/// banner and reads the server random from it, the server accepts the client's
/// proof and answers with exactly the tag the client expects.
pub proof fn lemma_handshake_completes(psk: Seq<u8>, server_random: Seq<u8>, client_random: Seq<u8>)
    requires
        server_random.len() == 32,
        client_random.len() == 32,
    ensures
        check_preamble(banner_bytes(server_random)) == Ok::<(), ProtocolError>(()),
        banner_bytes(server_random).subrange(10, 42) == server_random,
        client_proof_bytes(psk, server_random, client_random).len() == CLIENT_PROOF_LEN,
        server_verdict(psk, server_random, client_proof_bytes(psk, server_random, client_random))
            == Ok::<Seq<u8>, ProtocolError>(server_tag(psk, server_random, client_random)),
        server_tag(psk, server_random, client_random).len() == SERVER_PROOF_LEN,
{
    let b = banner_bytes(server_random);
    assert(b.subrange(0, 8) =~= MAGIC@);
    assert(b.subrange(10, 42) =~= server_random);
    let p = client_proof_bytes(psk, server_random, client_random);
    let tag = client_tag(psk, server_random, client_random);
    assert(tag.len() == 32);
    assert(p.subrange(0, 8) =~= MAGIC@);
    assert(p.subrange(10, 42) =~= client_random);
    assert(p.subrange(42, 74) =~= tag);
}

/// The server accepts a proof made with another PSK exactly when the two client tags
/// coincide; the handshake's strength rests on HMAC-SHA256 alone.
pub proof fn lemma_proof_accepted_iff_tags_agree(
    server_psk: Seq<u8>,
    client_psk: Seq<u8>,
    server_random: Seq<u8>,
    client_random: Seq<u8>,
)
    requires
        server_random.len() == 32,
        client_random.len() == 32,
    ensures
        server_verdict(
            server_psk,
            server_random,
            client_proof_bytes(client_psk, server_random, client_random),
        ) is Ok <==> client_tag(client_psk, server_random, client_random) == client_tag(
            server_psk,
            server_random,
            client_random,
        ),
{
    let p = client_proof_bytes(client_psk, server_random, client_random);
    let tag = client_tag(client_psk, server_random, client_random);
    assert(tag.len() == 32);
    assert(p.subrange(0, 8) =~= MAGIC@);
    assert(p.subrange(10, 42) =~= client_random);
    assert(p.subrange(42, 74) =~= tag);
}

} // verus!
