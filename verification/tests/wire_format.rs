use mini_signal::wire::{Preamble, WireMessage};

fn message(preamble: Option<Preamble>) -> WireMessage {
    WireMessage {
        preamble,
        header_ct: vec![0xaa, 0xbb, 0xcc],
        header_nonce: [1u8; 12],
        body: vec![0x10, 0x20],
        body_nonce: [2u8; 12],
    }
}

fn same(a: &WireMessage, b: &WireMessage) -> bool {
    format!("{:?}", a) == format!("{:?}", b)
}

#[test]
fn encoding_without_preamble() {
    let bytes = message(None).encode().unwrap();
    let mut expected = vec![1u8, 0];
    expected.extend_from_slice(&[0, 3, 0xaa, 0xbb, 0xcc]);
    expected.extend_from_slice(&[1u8; 12]);
    expected.extend_from_slice(&[0, 0, 0, 2, 0x10, 0x20]);
    expected.extend_from_slice(&[2u8; 12]);
    assert_eq!(bytes, expected);
    assert_eq!(bytes.len(), 2 + 2 + 3 + 12 + 4 + 2 + 12);
    let back = WireMessage::decode(&bytes).unwrap();
    assert!(same(&back, &message(None)));
}

#[test]
fn encoding_with_preamble() {
    let with_opk = Preamble { ik_sender: [3u8; 32], ek_sender: [4u8; 32], opk_used: Some([5u8; 32]) };
    let bytes = message(Some(with_opk)).encode().unwrap();
    assert_eq!(&bytes[..2], &[1, 1]);
    assert_eq!(&bytes[2..34], &[3u8; 32]);
    assert_eq!(&bytes[34..66], &[4u8; 32]);
    assert_eq!(bytes[66], 1);
    assert_eq!(&bytes[67..99], &[5u8; 32]);
    assert_eq!(&bytes[99..101], &[0, 3]);
    assert_eq!(bytes.len(), 99 + 35);
    assert!(same(&WireMessage::decode(&bytes).unwrap(), &message(Some(with_opk))));

    let without = Preamble { ik_sender: [3u8; 32], ek_sender: [4u8; 32], opk_used: None };
    let bytes = message(Some(without)).encode().unwrap();
    assert_eq!(bytes[66], 0);
    assert_eq!(bytes.len(), 67 + 35);
    assert!(same(&WireMessage::decode(&bytes).unwrap(), &message(Some(without))));
}

#[test]
fn malformed_bytes_are_refused() {
    let good = message(None).encode().unwrap();
    assert!(WireMessage::decode(&[]).is_none());
    assert!(WireMessage::decode(&[1]).is_none());
    // another version
    let mut bad = good.clone();
    bad[0] = 2;
    assert!(WireMessage::decode(&bad).is_none());
    // unknown flag bits
    let mut bad = good.clone();
    bad[1] = 2;
    assert!(WireMessage::decode(&bad).is_none());
    // cut short, at every length
    for cut in 0..good.len() {
        assert!(WireMessage::decode(&good[..cut]).is_none(), "length {}", cut);
    }
    // something follows
    let mut bad = good.clone();
    bad.push(0);
    assert!(WireMessage::decode(&bad).is_none());
    // the flag promises a preamble that is not there
    let mut bad = good.clone();
    bad[1] = 1;
    assert!(WireMessage::decode(&bad).is_none());
    // a presence byte that is neither 0 nor 1
    let p = Preamble { ik_sender: [3u8; 32], ek_sender: [4u8; 32], opk_used: None };
    let mut bad = message(Some(p)).encode().unwrap();
    bad[66] = 2;
    assert!(WireMessage::decode(&bad).is_none());
}

#[test]
fn lengths_that_do_not_fit_are_refused() {
    let mut m = message(None);
    m.header_ct = vec![0u8; 65535];
    let bytes = m.encode().unwrap();
    assert_eq!(&bytes[2..4], &[0xff, 0xff]);
    assert!(same(&WireMessage::decode(&bytes).unwrap(), &m));
    m.header_ct.push(0);
    assert!(m.encode().is_none());
}

#[test]
fn empty_parts() {
    let m = WireMessage {
        preamble: None,
        header_ct: vec![],
        header_nonce: [0u8; 12],
        body: vec![],
        body_nonce: [0u8; 12],
    };
    let bytes = m.encode().unwrap();
    assert_eq!(bytes.len(), 2 + 2 + 12 + 4 + 12);
    assert!(same(&WireMessage::decode(&bytes).unwrap(), &m));
}
