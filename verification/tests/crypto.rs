//! The cipher of voice packets, against the vectors of its reference.

use mumble_spaces::ocb2::{ocb_decrypt, ocb_encrypt, Block, CryptState};

const BLOCK_SIZE: usize = 16;

const RAW_KEY: [u8; 16] = [
    0x00, 0x01, 0x02, 0x03, 0x04, 0x05, 0x06, 0x07, 0x08, 0x09, 0x0a, 0x0b, 0x0c, 0x0d, 0x0e, 0x0f,
];

const NONCE: Block = [
    0xff, 0xee, 0xdd, 0xcc, 0xbb, 0xaa, 0x99, 0x88, 0x77, 0x66, 0x55, 0x44, 0x33, 0x22, 0x11, 0x00,
];

#[test]
fn ocb_test_vectors_from_krovetz_draft() {
    let (authentic, ciphertext, tag) = ocb_encrypt(&RAW_KEY, &[], &RAW_KEY, true);
    assert!(authentic);
    assert!(ciphertext.is_empty());
    const BLANK_TAG: Block = [
        0xBF, 0x31, 0x08, 0x13, 0x07, 0x73, 0xAD, 0x5E, 0xC7, 0x0E, 0xC6, 0x9E, 0x78, 0x75, 0xA7,
        0xB0,
    ];
    assert_eq!(tag, BLANK_TAG);

    let source: Vec<u8> = (0u8..40).collect();
    let (authentic, ciphertext, tag) = ocb_encrypt(&RAW_KEY, &source, &RAW_KEY, true);
    assert!(authentic);
    const LONG_TAG: Block = [
        0x9D, 0xB0, 0xCD, 0xF8, 0x80, 0xF7, 0x3E, 0x3E, 0x10, 0xD4, 0xEB, 0x32, 0x17, 0x76, 0x66,
        0x88,
    ];
    const CRYPTED: [u8; 40] = [
        0xF7, 0x5D, 0x6B, 0xC8, 0xB4, 0xDC, 0x8D, 0x66, 0xB8, 0x36, 0xA2, 0xB0, 0x8B, 0x32, 0xA6,
        0x36, 0x9F, 0x1C, 0xD3, 0xC5, 0x22, 0x8D, 0x79, 0xFD, 0x6C, 0x26, 0x7F, 0x5F, 0x6A, 0xA7,
        0xB2, 0x31, 0xC7, 0xDF, 0xB9, 0xD5, 0x99, 0x51, 0xAE, 0x9C,
    ];
    assert_eq!(tag, LONG_TAG);
    assert_eq!(ciphertext, CRYPTED);
}

#[test]
fn authcrypt_roundtrips_every_length_and_agrees_on_tag() {
    for len in 0u32..128 {
        let src: Vec<u8> = (0..len).map(|i| (i + 1) as u8).collect();
        let (enc_ok, encrypted, enc_tag) = ocb_encrypt(&RAW_KEY, &src, &NONCE, true);
        let (dec_ok, decrypted, dec_tag) = ocb_decrypt(&RAW_KEY, &encrypted, &NONCE);
        assert!(enc_ok, "encrypt authentic at len {len}");
        assert!(dec_ok, "decrypt authentic at len {len}");
        assert_eq!(enc_tag, dec_tag, "tags agree at len {len}");
        assert_eq!(decrypted, src, "roundtrip at len {len}");
    }
}

#[test]
fn xexstar_attack_is_detected() {
    let mut src = vec![0u8; 2 * BLOCK_SIZE];
    // First block: length of the second block, in bits.
    src[BLOCK_SIZE - 1] = (BLOCK_SIZE * 8) as u8;
    // Second block: arbitrary.
    for b in src[BLOCK_SIZE..].iter_mut() {
        *b = 42;
    }

    // Without the mitigation, encryption reports the critical block.
    let (enc_ok, mut encrypted, mut enc_tag) = ocb_encrypt(&RAW_KEY, &src, &NONCE, false);
    let failed_encrypt = !enc_ok;

    encrypted[BLOCK_SIZE - 1] ^= (BLOCK_SIZE * 8) as u8;
    for i in 0..BLOCK_SIZE {
        enc_tag[i] = src[BLOCK_SIZE + i] ^ encrypted[BLOCK_SIZE + i];
    }

    // The first block alone must be flagged.
    let (dec_ok, _plain, dec_tag) = ocb_decrypt(&RAW_KEY, &encrypted[..BLOCK_SIZE], &NONCE);
    let failed_decrypt = !dec_ok;

    assert_eq!(enc_tag, dec_tag);
    assert!(failed_encrypt);
    assert!(failed_decrypt);

    // With the mitigation, the same plaintext encrypts and decrypts
    // authentically, and the critical first block is altered (0 -> 1).
    let (enc_ok, encrypted, enc_tag) = ocb_encrypt(&RAW_KEY, &src, &NONCE, true);
    let (dec_ok, decrypted, dec_tag) = ocb_decrypt(&RAW_KEY, &encrypted, &NONCE);
    assert!(enc_ok);
    assert!(dec_ok);
    assert_eq!(enc_tag, dec_tag);
    assert_eq!(src[0], 0);
    assert_eq!(decrypted[0], 1);
}

#[test]
fn tamper_with_any_bit_is_rejected() {
    let mut state = CryptState::new(&RAW_KEY, &NONCE, &NONCE);
    let mut message = b"It was a funky funky town!".to_vec();
    message.push(0);

    let mut encrypted = state.encrypt(&message).expect("encrypt");
    let body_len = message.len();
    for i in 0..body_len * 8 {
        encrypted[i / 8] ^= 1u8 << (i % 8);
        assert!(state.decrypt(&encrypted).is_none(), "flipped bit {i} must be rejected");
        encrypted[i / 8] ^= 1u8 << (i % 8);
    }
    assert_eq!(state.decrypt(&encrypted).as_deref(), Some(&message[..]));
}

#[test]
fn iv_recovery_and_replay_rejection() {
    let mut enc = CryptState::new(&RAW_KEY, &[0u8; BLOCK_SIZE], &[0u8; BLOCK_SIZE]);
    let forced = [0x55u8; BLOCK_SIZE];
    enc.set_encrypt_iv(&forced);
    let mut dec = CryptState::new(&RAW_KEY, &enc.encrypt_iv(), &enc.encrypt_iv());

    let secret = b"abcdefghi\0";

    let crypted = enc.encrypt(secret).expect("encrypt");
    assert_eq!(dec.decrypt(&crypted).as_deref(), Some(&secret[..]));
    // A replay is refused.
    assert!(dec.decrypt(&crypted).is_none());

    // Lost packets are recovered from.
    let mut crypted = crypted;
    for _ in 0..16 {
        crypted = enc.encrypt(secret).expect("encrypt");
    }
    assert!(dec.decrypt(&crypted).is_some());

    // Wraparound: 15 packets per round, decrypt the last; each round loses 14.
    for _ in 0..128 {
        dec.lost = 0;
        let mut last = Vec::new();
        for _ in 0..15 {
            last = enc.encrypt(secret).expect("encrypt");
        }
        assert!(dec.decrypt(&last).is_some());
        assert_eq!(dec.lost, 14);
    }
    assert_eq!(enc.encrypt_iv(), dec.decrypt_iv());

    // Wrap too far: 257 packets ahead cannot be recovered.
    let mut far = Vec::new();
    for _ in 0..257 {
        far = enc.encrypt(secret).expect("encrypt");
    }
    assert!(dec.decrypt(&far).is_none());

    // Resync and continue.
    dec.set_decrypt_iv(&enc.encrypt_iv());
    let next = enc.encrypt(secret).expect("encrypt");
    assert!(dec.decrypt(&next).is_some());
}

#[test]
fn reverse_recovery_within_window_then_replay_rejected() {
    let forced = [0x55u8; BLOCK_SIZE];
    let mut enc = CryptState::new(&RAW_KEY, &forced, &forced);
    enc.set_encrypt_iv(&forced);
    let mut dec = CryptState::new(&RAW_KEY, &enc.encrypt_iv(), &enc.encrypt_iv());

    let secret = b"abcdefghi\0";

    let mut packets = Vec::new();
    for _ in 0..128 {
        packets.push(enc.encrypt(secret).expect("encrypt"));
    }
    for i in 0..30 {
        assert!(dec.decrypt(&packets[127 - i]).is_some(), "reverse {i}");
    }
    for i in 30..128 {
        assert!(dec.decrypt(&packets[127 - i]).is_none(), "too old {i}");
    }
    for i in 0..30 {
        assert!(dec.decrypt(&packets[127 - i]).is_none(), "replay {i}");
    }
}

#[test]
fn the_counter_carries_into_the_next_byte() {
    let mut iv = [0u8; BLOCK_SIZE];
    iv[0] = 0xff;
    let mut state = CryptState::new(&RAW_KEY, &iv, &iv);
    state.encrypt(b"a").expect("encrypt");
    let mut expected = [0u8; BLOCK_SIZE];
    expected[1] = 1;
    assert_eq!(state.encrypt_iv(), expected);
}

#[test]
fn a_late_packet_is_counted_and_keeps_the_counter() {
    let mut enc = CryptState::new(&RAW_KEY, &NONCE, &NONCE);
    let mut dec = CryptState::new(&RAW_KEY, &NONCE, &NONCE);
    let first = enc.encrypt(b"first").expect("encrypt");
    let second = enc.encrypt(b"second").expect("encrypt");
    let third = enc.encrypt(b"third").expect("encrypt");
    assert!(dec.decrypt(&first).is_some());
    assert!(dec.decrypt(&third).is_some());
    assert_eq!(dec.lost, 1);
    let ahead = dec.decrypt_iv();
    assert_eq!(dec.decrypt(&second).as_deref(), Some(&b"second"[..]));
    assert_eq!(dec.late, 1);
    assert_eq!(dec.good, 3);
    assert_eq!(dec.decrypt_iv(), ahead);
}

#[test]
fn a_packet_too_short_for_its_header_is_rejected() {
    let mut state = CryptState::new(&RAW_KEY, &NONCE, &NONCE);
    assert!(state.decrypt(&[]).is_none());
    assert!(state.decrypt(&[1, 2, 3]).is_none());
    assert_eq!(state.good, 0);
}
