use agent_bridge::assuan::{Assuan, Error, NONCE_LEN};

fn file(line: &[u8], nonce: &[u8]) -> Vec<u8> {
    let mut v = line.to_vec();
    v.extend_from_slice(nonce);
    v
}

#[test]
fn port_and_zero_nonce() {
    let a = Assuan::new(&file(b"12345\n", &[0u8; 16])).unwrap();
    assert_eq!(a.port(), 12345);
    assert_eq!(a.handshake(), &[0u8; 16][..]);
}

#[test]
fn nonce_is_the_sixteen_bytes_after_the_line() {
    let nonce: Vec<u8> = (1..=16).collect();
    let mut contents = file(b"80\n", &nonce);
    contents.extend_from_slice(b"trailing");
    let a = Assuan::new(&contents).unwrap();
    assert_eq!(a.port(), 80);
    assert_eq!(a.handshake(), &nonce[..]);
    assert_eq!(a.handshake().len(), NONCE_LEN);
}

#[test]
fn nonce_may_hold_line_breaks() {
    let a = Assuan::new(&file(b"1\n", &[b'\n'; 16])).unwrap();
    assert_eq!(a.port(), 1);
    assert_eq!(a.handshake(), &[b'\n'; 16][..]);
}

#[test]
fn short_nonce_is_refused() {
    assert!(matches!(Assuan::new(&file(b"12345\n", &[0u8; 15])), Err(Error::NonceParse)));
    assert!(matches!(Assuan::new(b"12345"), Err(Error::NonceParse)));
    assert!(matches!(Assuan::new(b""), Err(Error::NonceParse)));
}

#[test]
fn short_nonce_wins_over_bad_port() {
    assert!(matches!(Assuan::new(&file(b"port\n", &[0u8; 3])), Err(Error::NonceParse)));
}

#[test]
fn bad_port_is_refused() {
    for line in [&b"abc\n"[..], b"\n", b"70000\n", b"65536\n", b"-1\n", b"+\n", b"1 2\n", b"0x10\n"] {
        assert!(matches!(Assuan::new(&file(line, &[7u8; 16])), Err(Error::PortParse)), "{:?}", line);
    }
}

#[test]
fn port_is_trimmed_and_may_carry_plus() {
    assert_eq!(Assuan::new(&file(b" +080 \r\n", &[0u8; 16])).unwrap().port(), 80);
    assert_eq!(Assuan::new(&file(b"65535\n", &[0u8; 16])).unwrap().port(), 65535);
    assert_eq!(Assuan::new(&file(b"0\n", &[0u8; 16])).unwrap().port(), 0);
}
