use vnc::protocol::AppleAuthHandshake;
use vnc::security::{apple_auth, challenge_response, des, password_key, reverse_bits};
use vnc::Error;

fn block16(first: [u8; 8], second: [u8; 8]) -> [u8; 16] {
    let mut out = [0u8; 16];
    out[..8].copy_from_slice(&first);
    out[8..].copy_from_slice(&second);
    out
}

#[test]
fn des_encrypts_the_classic_vectors() {
    let input = block16(
        [0x01, 0x23, 0x45, 0x67, 0x89, 0xAB, 0xCD, 0xEF],
        [0x01, 0x23, 0x45, 0x67, 0x89, 0xAB, 0xCD, 0xEF],
    );
    let out = des(&input, &[0x13, 0x34, 0x57, 0x79, 0x9B, 0xBC, 0xDF, 0xF1]);
    assert_eq!(&out[..8], &[0x85, 0xE8, 0x13, 0x54, 0x0F, 0x0A, 0xB4, 0x05]);
    assert_eq!(&out[8..], &[0x85, 0xE8, 0x13, 0x54, 0x0F, 0x0A, 0xB4, 0x05]);

    let input = block16([0; 8], [0x95, 0xF8, 0xA5, 0xE5, 0xDD, 0x31, 0xD9, 0x00]);
    let out = des(&input, &[0; 8]);
    assert_eq!(&out[..8], &[0x8C, 0xA6, 0x4D, 0xE9, 0xC1, 0xB1, 0x23, 0xA7]);
    let out = des(&input, &[1; 8]);
    assert_eq!(&out[8..], &[0x80, 0x00, 0x00, 0x00, 0x00, 0x00, 0x00, 0x00]);
}

#[test]
fn des_encrypts_each_half_by_itself() {
    let mut challenge = [0u8; 16];
    for (i, byte) in challenge.iter_mut().enumerate() {
        *byte = i as u8;
    }
    let key = [0x0E, 0x86, 0xC6, 0x46, 0xA6, 0xE6, 0x96, 0x26];
    let response = des(&challenge, &key);
    assert_eq!(
        response,
        [
            0xea, 0x79, 0x37, 0xc4, 0x25, 0x59, 0xbe, 0x98, 0xa8, 0x7e, 0x4d, 0x17, 0x4d, 0x56,
            0xec, 0xba
        ]
    );
    let swapped = block16(
        [8, 9, 10, 11, 12, 13, 14, 15],
        [0, 1, 2, 3, 4, 5, 6, 7],
    );
    let other = des(&swapped, &key);
    assert_eq!(&other[..8], &response[8..]);
    assert_eq!(&other[8..], &response[..8]);
}

#[test]
fn bits_are_mirrored_within_each_byte() {
    assert_eq!(reverse_bits(0x70), 0x0E);
    assert_eq!(reverse_bits(0x61), 0x86);
    assert_eq!(reverse_bits(0x01), 0x80);
    assert_eq!(reverse_bits(0xFF), 0xFF);
    assert_eq!(reverse_bits(0x00), 0x00);
    for byte in 0..=255u8 {
        assert_eq!(reverse_bits(byte), byte.reverse_bits());
        assert_eq!(reverse_bits(reverse_bits(byte)), byte);
    }
    let key: Vec<u8> = [0x0E, 0x86, 0xC6, 0x46, 0xA6, 0xE6, 0x96, 0x26]
        .iter()
        .map(|b| reverse_bits(*b))
        .collect();
    assert_eq!(key, vec![0x70, 0x61, 0x63, 0x62, 0x65, 0x67, 0x69, 0x64]);
}

#[test]
fn vnc_authentication_answers_the_challenge() {
    let password = password_key(b"password");
    assert_eq!(&password, b"password");
    let mirrored: Vec<u8> = password.iter().map(|b| reverse_bits(*b)).collect();
    assert_eq!(mirrored, vec![0x0E, 0x86, 0xCE, 0xCE, 0xEE, 0xF6, 0x4E, 0x26]);
    let mut challenge = [0u8; 16];
    for (i, byte) in challenge.iter_mut().enumerate() {
        *byte = i as u8;
    }
    let response = challenge_response(&challenge, &password);
    assert_eq!(
        response,
        [
            0xb8, 0x66, 0x92, 0x41, 0x25, 0xc8, 0xee, 0xbb, 0x9d, 0xeb, 0xc1, 0xdb, 0x61, 0xc5,
            0x38, 0xe2
        ]
    );
    let mut key = [0u8; 8];
    key.copy_from_slice(&mirrored);
    assert_eq!(response, des(&challenge, &key));
}

#[test]
fn passwords_are_padded_or_cut_to_eight_bytes() {
    assert_eq!(password_key(b"abc"), [b'a', b'b', b'c', 0, 0, 0, 0, 0]);
    assert_eq!(password_key(b"0123456789"), *b"01234567");
    assert_eq!(password_key(b""), [0; 8]);
}

#[test]
fn apple_key_exchange_matches_an_independent_computation() {
    let handshake = AppleAuthHandshake {
        generator: 2,
        prime: vec![
            0xff, 0xff, 0xff, 0xff, 0xff, 0xff, 0xff, 0xff, 0xc9, 0x0f, 0xda, 0xa2, 0x21, 0x68,
            0xc2, 0x34, 0xc4, 0xc6, 0x62, 0x8b, 0x80, 0xdc, 0x1c, 0xd1,
        ],
        peer_key: vec![
            0x01, 0x23, 0x45, 0x67, 0x89, 0xab, 0xcd, 0xef, 0x01, 0x23, 0x45, 0x67, 0x89, 0xab,
            0xcd, 0xef, 0x01, 0x23, 0x45, 0x67, 0x89, 0xab, 0xcd, 0xef,
        ],
    };
    let private_key = [
        0x01, 0x02, 0x03, 0x04, 0x05, 0x06, 0x07, 0x08, 0x09, 0x0a, 0x0b, 0x0c, 0x0d, 0x0e, 0x0f,
        0x10,
    ];
    let response = apple_auth("user", "secret", &handshake, &private_key).unwrap();
    assert_eq!(
        response.pub_key,
        vec![
            0xf9, 0x71, 0x32, 0x02, 0xf6, 0xcf, 0x84, 0x97, 0x2e, 0xe5, 0xa9, 0xba, 0xb0, 0x2e,
            0xbb, 0x5e, 0xa9, 0x23, 0x62, 0x6c, 0x9d, 0x38, 0x9b, 0x73
        ]
    );
    let first = [
        0x55, 0x43, 0x40, 0xb0, 0x61, 0xc4, 0xf8, 0xa0, 0x5f, 0xd5, 0xa9, 0xff, 0x75, 0xea, 0x4d,
        0xe8,
    ];
    let zero = [
        0x5b, 0x8e, 0x80, 0x7b, 0x90, 0xa0, 0x3f, 0xb3, 0xad, 0x55, 0xc0, 0xf3, 0xd5, 0x2b, 0x7c,
        0xed,
    ];
    let fifth = [
        0x05, 0x99, 0x97, 0xa6, 0x6a, 0x5f, 0x5a, 0x97, 0xeb, 0x77, 0xfc, 0x68, 0xa1, 0xbe, 0xda,
        0xff,
    ];
    assert_eq!(&response.ciphertext[0..16], &first);
    assert_eq!(&response.ciphertext[16..32], &zero);
    assert_eq!(&response.ciphertext[48..64], &zero);
    assert_eq!(&response.ciphertext[64..80], &fifth);
    assert_eq!(&response.ciphertext[112..128], &zero);
}

#[test]
fn apple_key_exchange_refuses_a_prime_of_zero() {
    let handshake = AppleAuthHandshake { generator: 2, prime: vec![0, 0], peer_key: vec![0, 1] };
    let r = apple_auth("user", "secret", &handshake, &[1]);
    assert!(matches!(r, Err(Error::Unexpected("apple auth prime"))));
}
