use hmac::Mac;
use tunnelion::handshake::{ClientHandshake, ServerHandshake};
use tunnelion::protocol::{
    ct_eq_32, encode_stream_header, ProtocolError, StreamHeaderDecoder, CLIENT_PROOF_LEN, MAGIC,
    MAX_TUNNEL_NAME_LEN, PROTOCOL_VERSION, SERVER_BANNER_LEN,
};

fn decode_all(bytes: &[u8]) -> (Result<Option<String>, ProtocolError>, usize) {
    let mut d = StreamHeaderDecoder::new();
    let mut pos = 0;
    loop {
        let want = d.wants();
        let chunk = &bytes[pos..pos + want];
        pos += want;
        match d.feed(chunk) {
            Ok(None) => continue,
            other => return (other, pos),
        }
    }
}

#[test]
fn roundtrip_header() {
    let mut bytes = encode_stream_header("messengers").unwrap();
    bytes.extend_from_slice(b"GET / HTTP/1.1\r\n");
    let (res, used) = decode_all(&bytes);
    assert_eq!(res.unwrap().unwrap(), "messengers");
    assert_eq!(used, 3 + "messengers".len());
}

#[test]
fn encode_rejects_long_name() {
    let s = "x".repeat(MAX_TUNNEL_NAME_LEN + 1);
    assert!(encode_stream_header(&s).is_err());
}

#[test]
fn encode_accepts_longest_name_and_empty_name() {
    let s = "y".repeat(MAX_TUNNEL_NAME_LEN);
    let v = encode_stream_header(&s).unwrap();
    assert_eq!(&v[..3], &[1u8, 0, 255]);
    assert_eq!(v.len(), 258);
    let e = encode_stream_header("").unwrap();
    assert_eq!(e, vec![1u8, 0, 0]);
    assert_eq!(decode_all(&e).0.unwrap().unwrap(), "");
}

#[test]
fn encode_exact_bytes_with_utf8_name() {
    let v = encode_stream_header("é").unwrap();
    assert_eq!(v, vec![1u8, 0, 2, 0xc3, 0xa9]);
    assert_eq!(decode_all(&v).0.unwrap().unwrap(), "é");
}

#[test]
fn decoder_rejects_bad_version() {
    let mut d = StreamHeaderDecoder::new();
    assert_eq!(d.wants(), 1);
    let r = d.feed(&[2]);
    assert!(matches!(r, Err(ProtocolError::BadStreamVersion(2))));
    assert!(d.is_done());
}

#[test]
fn decoder_rejects_long_length() {
    let mut d = StreamHeaderDecoder::new();
    assert!(matches!(d.feed(&[1]), Ok(None)));
    assert_eq!(d.wants(), 2);
    assert!(matches!(d.feed(&[1, 0]), Err(ProtocolError::TunnelNameTooLong)));
}

#[test]
fn decoder_rejects_invalid_utf8() {
    let (res, _) = decode_all(&[1, 0, 2, 0xff, 0xfe]);
    assert!(matches!(res, Err(ProtocolError::InvalidTunnelNameUtf8)));
}

#[test]
fn protocol_error_messages() {
    assert_eq!(ProtocolError::BadVersion(7).message(), "unsupported protocol version 7");
    assert_eq!(ProtocolError::TunnelNameTooLong.message(), "tunnel name too long (max 255)");
    assert_eq!(ProtocolError::BadStreamVersion(9).message(), "invalid stream header version 9");
    assert_eq!(ProtocolError::InvalidTunnelNameUtf8.message(), "tunnel name is not valid UTF-8");
    assert_eq!(ProtocolError::BadMagic.message(), "bad magic");
    assert_eq!(ProtocolError::UnexpectedEof.message(), "unexpected eof");
    assert_eq!(ProtocolError::InvalidHandshake.message(), "invalid handshake");
    let io = ProtocolError::Io(std::io::Error::new(std::io::ErrorKind::Other, "boom"));
    assert_eq!(io.message(), "io: boom");
}

#[test]
fn ct_eq_32_compares_all_bytes() {
    let a = [7u8; 32];
    let mut b = [7u8; 32];
    assert!(ct_eq_32(&a, &b));
    b[31] = 8;
    assert!(!ct_eq_32(&a, &b));
}

fn run_handshake(server_psk: &[u8], client_psk: &[u8]) -> (Result<(), ProtocolError>, Result<(), ProtocolError>) {
    let (server, banner) = ServerHandshake::start(server_psk).unwrap();
    assert_eq!(banner.len(), SERVER_BANNER_LEN);
    let (client, proof) = ClientHandshake::respond(client_psk, &banner).unwrap();
    assert_eq!(proof.len(), CLIENT_PROOF_LEN);
    match server.verify_client_proof(&proof) {
        Ok(server_mac) => {
            let c = client.verify_server_proof(&server_mac);
            (Ok(()), c)
        }
        Err(e) => (Err(e), Err(ProtocolError::UnexpectedEof)),
    }
}

#[test]
fn handshake_ok() {
    let psk = b"unit-test-psk";
    let (sr, cr) = run_handshake(psk, psk);
    sr.unwrap();
    cr.unwrap();
}

#[test]
fn handshake_wrong_psk() {
    let (sr, cr) = run_handshake(b"one", b"two");
    assert!(sr.is_err() || cr.is_err());
}

#[test]
fn handshake_bad_client_mac() {
    let psk = b"psk";
    let (server, banner) = ServerHandshake::start(psk).unwrap();
    assert_eq!(&banner[..8], &MAGIC[..]);
    let client_random = [9u8; 32];
    let mut proof = [0u8; CLIENT_PROOF_LEN];
    proof[..MAGIC.len()].copy_from_slice(MAGIC.as_slice());
    proof[MAGIC.len()..MAGIC.len() + 2].copy_from_slice(&PROTOCOL_VERSION.to_be_bytes());
    proof[MAGIC.len() + 2..MAGIC.len() + 2 + 32].copy_from_slice(&client_random);
    // wrong MAC (zeros)
    let r = server.verify_client_proof(&proof);
    assert!(matches!(r, Err(ProtocolError::InvalidHandshake)));
}

#[test]
fn handshake_fixed_randoms_are_deterministic() {
    let (s1, b1) = ServerHandshake::with_random(b"k", [1u8; 32]);
    let (s2, b2) = ServerHandshake::with_random(b"k", [1u8; 32]);
    assert_eq!(b1, b2);
    let (_, p1) = ClientHandshake::respond_with_random(b"k", &b1, [2u8; 32]).unwrap();
    let (c2, p2) = ClientHandshake::respond_with_random(b"k", &b2, [2u8; 32]).unwrap();
    assert_eq!(p1, p2);
    let m1 = s1.verify_client_proof(&p1).unwrap();
    assert_eq!(m1.len(), 32);
    assert_eq!(s2.verify_client_proof(&p2).unwrap(), m1);
    assert!(c2.verify_server_proof(&m1).is_ok());
}

#[test]
fn handshake_rejects_bad_magic_and_version() {
    let (server, mut banner) = ServerHandshake::with_random(b"k", [1u8; 32]);
    banner[9] = 2;
    assert!(matches!(
        ClientHandshake::respond(b"k", &banner),
        Err(ProtocolError::BadVersion(2))
    ));
    banner[0] = b'X';
    assert!(matches!(ClientHandshake::respond(b"k", &banner), Err(ProtocolError::BadMagic)));
    let mut msg = [0u8; CLIENT_PROOF_LEN];
    assert!(matches!(server.verify_client_proof(&msg), Err(ProtocolError::BadMagic)));
    msg[..8].copy_from_slice(&MAGIC);
    msg[9] = 3;
    assert!(matches!(server.verify_client_proof(&msg), Err(ProtocolError::BadVersion(3))));
}

#[test]
fn server_rejects_wrong_server_proof_on_client() {
    let (_, banner) = ServerHandshake::with_random(b"a", [4u8; 32]);
    let (client, _) = ClientHandshake::respond_with_random(b"a", &banner, [5u8; 32]).unwrap();
    assert!(matches!(
        client.verify_server_proof(&[0u8; 32]),
        Err(ProtocolError::InvalidHandshake)
    ));
}

fn hmac_tag(key: &[u8], parts: &[&[u8]]) -> Vec<u8> {
    let mut mac = <hmac::Hmac<sha2::Sha256> as Mac>::new_from_slice(key).unwrap();
    for p in parts {
        mac.update(p);
    }
    mac.finalize().into_bytes().to_vec()
}

#[test]
fn handshake_tags_are_hmac_sha256_over_label_and_randoms() {
    let sr = [0x11u8; 32];
    let cr = [0x22u8; 32];
    let (server, banner) = ServerHandshake::with_random(b"secret", sr);
    let (_, proof) = ClientHandshake::respond_with_random(b"secret", &banner, cr).unwrap();
    let client_tag = hmac_tag(b"secret", &[b"tunnelion-handshake-client-v1\0", &sr, &cr]);
    assert_eq!(&proof[42..], &client_tag[..]);
    let reply = server.verify_client_proof(&proof).unwrap();
    let server_tag = hmac_tag(b"secret", &[b"tunnelion-handshake-server-v1\0", &sr, &cr]);
    assert_eq!(reply, server_tag);
    assert_ne!(client_tag, server_tag);
}
