use encryptallinator::crypto::{decrypt_payload, derive_key, encrypt_payload, seal_payload, CryptoError};
use encryptallinator::payload::{decode_payload, encode_payload, Payload, PayloadEncodingError, PayloadKind};

#[test]
fn file_payload_round_trip_succeeds() {
    let payload = Payload {
        kind: PayloadKind::File,
        original_name: "secrets.txt".to_string(),
        data: b"top secret".to_vec(),
    };

    let encrypted = encrypt_payload(&payload, "correct horse battery staple").unwrap();
    let decrypted = decrypt_payload(&encrypted, "correct horse battery staple").unwrap();

    assert_eq!(payload, decrypted);
}

#[test]
fn directory_payload_round_trip_succeeds() {
    let payload = Payload {
        kind: PayloadKind::DirectoryArchive,
        original_name: "vault".to_string(),
        data: vec![1, 2, 3, 4, 5],
    };

    let encrypted = encrypt_payload(&payload, "folder-password").unwrap();
    let decrypted = decrypt_payload(&encrypted, "folder-password").unwrap();

    assert_eq!(payload, decrypted);
}

#[test]
fn wrong_password_is_rejected() {
    let payload = Payload {
        kind: PayloadKind::File,
        original_name: "wrong-password.txt".to_string(),
        data: b"still secret".to_vec(),
    };

    let encrypted = encrypt_payload(&payload, "correct password").unwrap();
    let error = decrypt_payload(&encrypted, "incorrect password").unwrap_err();

    assert_eq!(
        error.message(),
        "Decryption failed. Check the password or confirm the file was created by Encryptallinator."
    );
}

#[test]
fn payload_encoding_has_the_documented_layout() {
    let payload = Payload {
        kind: PayloadKind::DirectoryArchive,
        original_name: "ab".to_string(),
        data: vec![7, 8, 9],
    };
    let bytes = encode_payload(&payload).unwrap();
    let expected: Vec<u8> = vec![
        1, 0, 0, 0, 2, 0, 0, 0, 0, 0, 0, 0, b'a', b'b', 3, 0, 0, 0, 0, 0, 0, 0, 7, 8, 9,
    ];
    assert_eq!(bytes, expected);
}

#[test]
fn payload_encoding_counts_utf8_bytes_of_the_name() {
    let payload = Payload { kind: PayloadKind::File, original_name: "é".to_string(), data: vec![] };
    let bytes = encode_payload(&payload).unwrap();
    assert_eq!(bytes, vec![0, 0, 0, 0, 2, 0, 0, 0, 0, 0, 0, 0, 0xc3, 0xa9, 0, 0, 0, 0, 0, 0, 0, 0]);
}

#[test]
fn payload_decoding_reads_back_and_ignores_trailing_bytes() {
    let payload = Payload {
        kind: PayloadKind::File,
        original_name: "notes.md".to_string(),
        data: b"hello".to_vec(),
    };
    let mut bytes = encode_payload(&payload).unwrap();
    bytes.extend_from_slice(&[0xff, 0xfe]);
    assert_eq!(decode_payload(&bytes).unwrap(), payload);
}

#[test]
fn payload_decoding_refuses_unknown_kind() {
    let bytes: Vec<u8> = vec![2, 0, 0, 0, 1, 0, 0, 0, 0, 0, 0, 0, b'x', 0, 0, 0, 0, 0, 0, 0, 0];
    match decode_payload(&bytes) {
        Err(PayloadEncodingError::UnknownKind(tag)) => assert_eq!(tag, 2),
        other => panic!("unexpected {:?}", other),
    }
    let error = CryptoError::Serialize(PayloadEncodingError::UnknownKind(2));
    assert_eq!(
        error.message(),
        "Unable to serialize the encrypted payload: invalid value: integer `2`, expected variant index 0 <= i < 2"
    );
}

#[test]
fn payload_decoding_refuses_truncated_and_invalid_utf8() {
    let short: Vec<u8> = vec![0, 0, 0, 0, 5, 0, 0, 0, 0, 0, 0, 0, b'a'];
    assert!(matches!(decode_payload(&short), Err(PayloadEncodingError::Bincode(_))));
    let bad_utf8: Vec<u8> = vec![0, 0, 0, 0, 1, 0, 0, 0, 0, 0, 0, 0, 0xff, 0, 0, 0, 0, 0, 0, 0, 0];
    assert!(matches!(decode_payload(&bad_utf8), Err(PayloadEncodingError::Bincode(_))));
    let error = CryptoError::Serialize(decode_payload(&short).unwrap_err());
    assert!(error.message().starts_with("Unable to serialize the encrypted payload: "));
}

#[test]
fn sealing_writes_magic_salt_nonce_and_ciphertext() {
    let payload = Payload { kind: PayloadKind::File, original_name: "a".to_string(), data: vec![42] };
    let salt = [3u8; 16];
    let nonce = [5u8; 12];
    let sealed = seal_payload(&payload, "pw", &salt, &nonce).unwrap();
    assert_eq!(&sealed[..4], b"EAI1");
    assert_eq!(&sealed[4..20], &salt[..]);
    assert_eq!(&sealed[20..32], &nonce[..]);
    let plaintext_len = encode_payload(&payload).unwrap().len();
    assert_eq!(sealed.len(), 32 + plaintext_len + 16);
    assert_ne!(&sealed[32..32 + plaintext_len], &encode_payload(&payload).unwrap()[..]);
    assert_eq!(decrypt_payload(&sealed, "pw").unwrap(), payload);

    let mut tampered = sealed.clone();
    let last = tampered.len() - 1;
    tampered[last] ^= 1;
    assert!(matches!(decrypt_payload(&tampered, "pw"), Err(CryptoError::DecryptionFailed)));
}

#[test]
fn short_or_foreign_files_are_invalid_format() {
    assert!(matches!(decrypt_payload(&[0u8; 32], "pw"), Err(CryptoError::InvalidFormat)));
    let mut foreign = vec![0u8; 40];
    foreign[..4].copy_from_slice(b"EAI2");
    assert!(matches!(decrypt_payload(&foreign, "pw"), Err(CryptoError::InvalidFormat)));
    assert_eq!(
        CryptoError::InvalidFormat.message(),
        "The encrypted file format is invalid or unsupported."
    );
}

#[test]
fn fresh_salt_and_nonce_each_time() {
    let payload = Payload { kind: PayloadKind::File, original_name: "x".to_string(), data: vec![] };
    let first = encrypt_payload(&payload, "pw").unwrap();
    let second = encrypt_payload(&payload, "pw").unwrap();
    assert_ne!(&first[4..32], &second[4..32]);
}

#[test]
fn key_depends_on_password_and_salt_only() {
    let payload = Payload { kind: PayloadKind::File, original_name: "k".to_string(), data: vec![1, 2] };
    let salt = [9u8; 16];
    let other_salt = [10u8; 16];
    let nonce = [1u8; 12];
    let first = seal_payload(&payload, "alpha", &salt, &nonce).unwrap();
    let again = seal_payload(&payload, "alpha", &salt, &nonce).unwrap();
    let other_password = seal_payload(&payload, "beta", &salt, &nonce).unwrap();
    let other_salt_sealed = seal_payload(&payload, "alpha", &other_salt, &nonce).unwrap();
    assert_eq!(first, again);
    assert_ne!(&first[32..], &other_password[32..]);
    assert_ne!(&first[32..], &other_salt_sealed[32..]);
    assert!(matches!(decrypt_payload(&other_password, "alpha"), Err(CryptoError::DecryptionFailed)));
}

#[test]
fn sealed_length_is_header_payload_and_tag() {
    let payload = Payload {
        kind: PayloadKind::File,
        original_name: "secrets.txt".to_string(),
        data: b"top secret".to_vec(),
    };
    let encoded = encode_payload(&payload).unwrap();
    assert_eq!(encoded.len(), 41);
    let sealed = encrypt_payload(&payload, "correct horse battery staple").unwrap();
    assert_eq!(sealed.len(), 89);
    assert_eq!(&sealed[..4], b"EAI1");
}

#[test]
fn unknown_kind_is_reported_before_the_rest_is_read() {
    let bytes: Vec<u8> = vec![5, 0, 0, 0];
    assert!(matches!(decode_payload(&bytes), Err(PayloadEncodingError::UnknownKind(5))));
    let short: Vec<u8> = vec![1, 0, 0];
    assert!(matches!(decode_payload(&short), Err(PayloadEncodingError::Bincode(_))));
}

#[test]
fn bincode_reasons_follow_the_lead() {
    let short: Vec<u8> = vec![0, 0, 0, 0, 5, 0, 0, 0, 0, 0, 0, 0, b'a'];
    let message = CryptoError::Serialize(decode_payload(&short).unwrap_err()).message();
    let lead = "Unable to serialize the encrypted payload: ";
    assert!(message.starts_with(lead));
    assert!(message.len() > lead.len());
}

#[test]
fn key_derivation_is_deterministic() {
    let salt = [7u8; 16];
    let first = derive_key("password", &salt).unwrap();
    let second = derive_key("password", &salt).unwrap();
    assert_eq!(first, second);
    assert_ne!(first, derive_key("password", &[8u8; 16]).unwrap());
    assert_ne!(first, [0u8; 32]);
}
