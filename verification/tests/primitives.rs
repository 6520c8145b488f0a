use mini_signal::bundle::KeyBundle;
use mini_signal::bytes::{all_zero, bytes_eq, get_u16, get_u32, put_u16, put_u32, take};
use mini_signal::header::Header;
use mini_signal::primitives::{body_nonce, dh, header_keys, kdf_ck, kdf_rk, public_key, KeyPair};
use mini_signal::x3dh::{initiate_with, respond};
use mini_signal::bundle::PrekeyBundle;

#[test]
fn public_key_of_a_known_secret() {
    // first key pair of RFC 7748, section 6.1
    let secret: [u8; 32] = [
        0x77, 0x07, 0x6d, 0x0a, 0x73, 0x18, 0xa5, 0x7d, 0x3c, 0x16, 0xc1, 0x72, 0x51, 0xb2, 0x66, 0x45,
        0xdf, 0x4c, 0x2f, 0x87, 0xeb, 0xc0, 0x99, 0x2a, 0xb1, 0x77, 0xfb, 0xa5, 0x1d, 0xb9, 0x2c, 0x2a,
    ];
    let public: [u8; 32] = [
        0x85, 0x20, 0xf0, 0x09, 0x89, 0x30, 0xa7, 0x54, 0x74, 0x8b, 0x7d, 0xdc, 0xb4, 0x3e, 0xf7, 0x5a,
        0x0d, 0xbf, 0x3a, 0x0d, 0x26, 0x38, 0x1a, 0xf4, 0xeb, 0xa4, 0xa9, 0x8e, 0xaa, 0x9b, 0x4e, 0x6a,
    ];
    assert_eq!(public_key(&secret), public);
    assert_eq!(KeyPair::from_secret(secret).public, public);
    assert_eq!(
        public_key(&[5u8; 32]),
        [80, 166, 20, 9, 177, 221, 208, 50, 94, 155, 22, 183, 0, 231, 25, 233, 119, 44, 7, 0, 11, 27, 215, 120, 110, 144, 124, 101, 61, 32, 73, 93]
    );
}

#[test]
fn diffie_hellman_agrees_and_rejects_zero() {
    let a = KeyPair::from_secret([5u8; 32]);
    let b = KeyPair::from_secret([6u8; 32]);
    let shared = dh(&a.secret, &b.public).unwrap();
    assert_eq!(
        shared,
        [237, 250, 54, 10, 150, 51, 202, 155, 111, 230, 85, 190, 136, 73, 56, 147, 35, 174, 58, 52, 68, 134, 101, 103, 244, 99, 200, 226, 200, 11, 187, 90]
    );
    assert_eq!(dh(&b.secret, &a.public), Some(shared));
    // the point of order one gives the all-zero output
    assert_eq!(dh(&a.secret, &[0u8; 32]), None);
}

#[test]
fn chain_key_step() {
    let (next, mk) = kdf_ck(&[7u8; 32]);
    assert_eq!(
        next,
        [70, 158, 3, 18, 63, 28, 156, 109, 92, 63, 250, 162, 96, 199, 254, 249, 248, 99, 192, 182, 175, 147, 247, 220, 174, 92, 19, 203, 253, 173, 252, 165]
    );
    assert_eq!(
        mk,
        [61, 139, 47, 162, 162, 83, 127, 220, 221, 164, 110, 112, 73, 102, 161, 5, 114, 45, 38, 141, 46, 158, 212, 59, 190, 91, 29, 217, 214, 128, 41, 53]
    );
}

#[test]
fn root_key_step() {
    let (rk, ck, nhk) = kdf_rk(&[1u8; 32], &[2u8; 32]);
    assert_eq!(
        rk,
        [246, 157, 40, 187, 52, 114, 164, 187, 174, 144, 131, 233, 0, 18, 40, 143, 62, 224, 29, 237, 57, 225, 135, 112, 255, 133, 32, 168, 122, 57, 61, 34]
    );
    assert_eq!(
        ck,
        [243, 30, 77, 132, 158, 1, 145, 106, 236, 138, 95, 161, 67, 219, 202, 11, 121, 41, 118, 197, 52, 145, 78, 229, 154, 31, 11, 236, 20, 86, 138, 16]
    );
    assert_eq!(
        nhk,
        [21, 85, 36, 61, 157, 64, 82, 59, 21, 138, 108, 245, 35, 132, 163, 209, 134, 193, 124, 221, 151, 215, 32, 92, 50, 112, 232, 147, 151, 120, 19, 164]
    );
}

#[test]
fn body_nonce_and_header_keys() {
    assert_eq!(body_nonce(&[3u8; 32]), [153, 9, 109, 85, 56, 247, 226, 8, 162, 76, 191, 7]);
    let (send, recv) = header_keys(&[4u8; 32]);
    assert_eq!(
        send,
        [152, 11, 21, 220, 98, 156, 2, 48, 88, 198, 187, 250, 10, 208, 203, 19, 14, 209, 229, 17, 60, 191, 222, 109, 29, 60, 89, 43, 57, 172, 83, 251]
    );
    assert_eq!(
        recv,
        [238, 39, 37, 91, 117, 177, 185, 232, 158, 166, 216, 201, 107, 176, 123, 30, 242, 196, 114, 19, 218, 135, 57, 179, 210, 76, 35, 40, 49, 82, 221, 138]
    );
}

#[test]
fn signing_key_and_signature() {
    let bundle = KeyBundle::from_secrets([2u8; 32], [3u8; 32], [4u8; 32], &vec![]);
    assert_eq!(
        bundle.verifying_key,
        [237, 73, 40, 198, 40, 209, 194, 198, 234, 233, 3, 56, 144, 89, 149, 97, 41, 89, 39, 58, 92, 99, 249, 54, 54, 193, 70, 20, 172, 135, 55, 209]
    );
    assert_eq!(
        bundle.spk_signature,
        [51, 224, 180, 11, 190, 97, 223, 254, 11, 19, 167, 215, 159, 208, 173, 72, 65, 121, 160, 234, 77, 233, 153, 144, 252, 190, 50, 155, 214, 143, 234, 78, 61, 217, 18, 28, 238, 0, 87, 117, 99, 183, 249, 142, 243, 83, 82, 228, 248, 74, 214, 101, 53, 43, 62, 2, 238, 3, 18, 248, 132, 32, 253, 13]
    );
}

#[test]
fn handshake_secret_with_one_time_prekey() {
    let alice = KeyPair::from_secret([1u8; 32]);
    let bob = KeyBundle::from_secrets([2u8; 32], [3u8; 32], [4u8; 32], &vec![[5u8; 32]]);
    let keys = PrekeyBundle {
        ik: bob.identity.public,
        spk: bob.spk.public,
        spk_signature: bob.spk_signature,
        verifying_key: bob.verifying_key,
        opk: Some(bob.opks[0].public),
    };
    let h = initiate_with(&alice, [6u8; 32], &keys).unwrap();
    let expected = [136, 149, 196, 149, 203, 210, 207, 119, 44, 213, 186, 163, 25, 60, 110, 217, 7, 8, 80, 147, 174, 62, 223, 38, 5, 216, 63, 107, 181, 7, 219, 78];
    assert_eq!(h.sk, expected);
    let mut ad = alice.public.to_vec();
    ad.extend_from_slice(&bob.identity.public);
    assert_eq!(h.ad, ad);
    assert_eq!(h.preamble.ik_sender, alice.public);
    assert_eq!(h.preamble.ek_sender, public_key(&[6u8; 32]));
    let (sk, ad2) = respond(&bob.identity, &bob.spk, Some(bob.opks[0]), &alice.public, &h.preamble.ek_sender).unwrap();
    assert_eq!(sk, expected);
    assert_eq!(ad2, ad);
}

#[test]
fn header_encoding_and_sealing() {
    let h = Header { dh: public_key(&[7u8; 32]), pn: 3, n: 5 };
    let bytes = h.encode();
    assert_eq!(bytes.len(), 40);
    assert_eq!(&bytes[..32], &h.dh[..]);
    assert_eq!(&bytes[32..], &[0, 0, 0, 3, 0, 0, 0, 5]);
    let back = Header::decode(&bytes).unwrap();
    assert_eq!((back.dh, back.pn, back.n), (h.dh, 3, 5));
    assert!(Header::decode(&bytes[..39]).is_none());
    let mut last = bytes.clone();
    for b in &mut last[36..] {
        *b = 0xff;
    }
    assert!(Header::decode(&last).is_none());

    let ct = h.seal(&[9u8; 32], &[8u8; 12]);
    assert_eq!(
        ct,
        vec![166, 101, 119, 255, 137, 199, 60, 134, 3, 95, 102, 104, 129, 35, 144, 250, 78, 191, 30, 147, 110, 58, 114, 53, 106, 92, 63, 184, 67, 249, 105, 150, 115, 248, 245, 103, 128, 115, 81, 96, 37, 94, 79, 146, 208, 56, 176, 160, 150, 6, 204, 176, 214, 7, 241, 208]
    );
    let opened = Header::open(&[9u8; 32], &[8u8; 12], &ct).unwrap();
    assert_eq!((opened.dh, opened.pn, opened.n), (h.dh, 3, 5));
    assert!(Header::open(&[10u8; 32], &[8u8; 12], &ct).is_none());
    assert!(Header::open(&[9u8; 32], &[7u8; 12], &ct).is_none());
}

#[test]
fn byte_helpers() {
    let mut v = Vec::new();
    put_u16(&mut v, 0x1234);
    put_u32(&mut v, 0xdead_beef);
    assert_eq!(v, vec![0x12, 0x34, 0xde, 0xad, 0xbe, 0xef]);
    assert_eq!(get_u16(&v, 0), 0x1234);
    assert_eq!(get_u32(&v, 2), 0xdead_beef);
    assert_eq!(take::<3>(&v, 1), [0x34, 0xde, 0xad]);
    assert!(bytes_eq(&v, &v.clone()));
    assert!(!bytes_eq(&v, &v[1..]));
    assert!(all_zero(&[0, 0, 0]));
    assert!(!all_zero(&[0, 1, 0]));
    assert!(all_zero(&[]));
}
