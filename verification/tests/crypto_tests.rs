use anonymous_conference::crypto::{
    apply_ephemeral_key_part, decrypt_message, encrypt_message, encrypt_message_with_iv,
    generate_ephemeral_key, generate_iv, generate_salt, hash_password, hash_password_with_salt,
    EncryptionResult, IV_SIZE, KEY_SIZE, SALT_SIZE, TAG_SIZE,
};

#[test]
fn test_encrypt_decrypt() {
    let key = generate_ephemeral_key();
    let message = b"Hello, world!";
    let mut result = encrypt_message(message, &key).unwrap();
    let plaintext = decrypt_message(&key, &result).unwrap();
    assert_eq!(&message.to_vec(), &plaintext);

    result.ciphertext[0] ^= 0x01; // flip a bit in the tag
    assert!(decrypt_message(&key, &result).is_err());
}

#[test]
fn test_hash_password() {
    let password = "password".as_bytes();
    let (hash, salt) = hash_password(password);
    assert_eq!(hash, hash_password_with_salt(password, &salt));
    assert_ne!(hash, hash_password_with_salt(b"password1", &salt));
}

#[test]
fn test_encode_decode_encryption_result() {
    let iv = generate_iv();
    let ciphertext = b"this is a test ciphertext";
    let expected_encryption_result = EncryptionResult { ciphertext: ciphertext.to_vec(), iv };
    let encoded = expected_encryption_result.encode();
    let decoded = EncryptionResult::decode(&encoded).unwrap();
    assert_eq!(expected_encryption_result, decoded);
}

#[test]
fn sizes_are_those_of_the_primitives() {
    assert_eq!(KEY_SIZE, 32);
    assert_eq!(SALT_SIZE, 32);
    assert_eq!(IV_SIZE, 12);
    assert_eq!(TAG_SIZE, 16);
}

#[test]
fn encode_puts_the_iv_before_the_ciphertext() {
    let iv = [1u8, 2, 3, 4, 5, 6, 7, 8, 9, 10, 11, 12];
    let ciphertext: Vec<u8> = (100u8..120).collect();
    let encoded = EncryptionResult { ciphertext: ciphertext.clone(), iv }.encode();
    assert_eq!(encoded.len(), 32);
    assert_eq!(&encoded[..12], &iv[..]);
    assert_eq!(&encoded[12..], &ciphertext[..]);
}

#[test]
fn decode_needs_an_iv_and_a_tag() {
    assert!(EncryptionResult::decode(&[]).is_err());
    assert!(EncryptionResult::decode(&[7u8; 27]).is_err());
    let shortest = EncryptionResult::decode(&[7u8; 28]).unwrap();
    assert_eq!(shortest.iv, [7u8; 12]);
    assert_eq!(shortest.ciphertext, vec![7u8; 16]);
}

#[test]
fn decode_undoes_encode_from_a_tag_upwards() {
    for len in [16usize, 17, 40, 1000] {
        let result = EncryptionResult {
            ciphertext: (0..len).map(|i| (i % 251) as u8).collect(),
            iv: [9u8; 12],
        };
        assert_eq!(EncryptionResult::decode(&result.encode()).unwrap(), result);
    }
    // a ciphertext shorter than a tag encodes, but what it encodes to is no result
    let short = EncryptionResult { ciphertext: vec![1u8; 15], iv: [9u8; 12] };
    assert!(EncryptionResult::decode(&short.encode()).is_err());
}

#[test]
fn ciphertext_is_the_message_enciphered_and_a_tag() {
    let key = [3u8; 32];
    let message = b"what the cipher makes of this is not this";
    let result = encrypt_message(message, &key).unwrap();
    assert_eq!(result.ciphertext.len(), message.len() + 16);
    assert_ne!(&result.ciphertext[..message.len()], &message[..]);
    let empty = encrypt_message(b"", &key).unwrap();
    assert_eq!(empty.ciphertext.len(), 16);
    assert_eq!(decrypt_message(&key, &empty).unwrap(), Vec::<u8>::new());
}

#[test]
fn encryption_is_a_function_of_key_iv_and_message() {
    let key = [3u8; 32];
    let iv = [5u8; 12];
    let first = encrypt_message_with_iv(b"same", &key, iv).unwrap();
    let second = encrypt_message_with_iv(b"same", &key, iv).unwrap();
    assert_eq!(first, second);
    assert_eq!(first.iv, iv);
    let other_iv = encrypt_message_with_iv(b"same", &key, [6u8; 12]).unwrap();
    assert_ne!(first.ciphertext, other_iv.ciphertext);
    let other_key = encrypt_message_with_iv(b"same", &[4u8; 32], iv).unwrap();
    assert_ne!(first.ciphertext, other_key.ciphertext);
    assert_eq!(decrypt_message(&key, &first).unwrap(), b"same".to_vec());
}

#[test]
fn decryption_fails_on_any_flipped_bit_and_on_another_key() {
    let key = generate_ephemeral_key();
    let message = b"tamper with me";
    let result = encrypt_message(message, &key).unwrap();
    for position in 0..result.ciphertext.len() {
        let mut tampered = EncryptionResult { ciphertext: result.ciphertext.clone(), iv: result.iv };
        tampered.ciphertext[position] ^= 0x80;
        assert!(decrypt_message(&key, &tampered).is_err());
    }
    for position in 0..12 {
        let mut tampered = EncryptionResult { ciphertext: result.ciphertext.clone(), iv: result.iv };
        tampered.iv[position] ^= 0x01;
        assert!(decrypt_message(&key, &tampered).is_err());
    }
    let mut other_key = key;
    other_key[31] ^= 0x01;
    assert!(decrypt_message(&other_key, &result).is_err());
    let truncated = EncryptionResult { ciphertext: result.ciphertext[..15].to_vec(), iv: result.iv };
    assert!(decrypt_message(&key, &truncated).is_err());
}

#[test]
fn fresh_ivs_keys_and_salts_differ() {
    assert_ne!(generate_iv(), generate_iv());
    assert_ne!(generate_ephemeral_key(), generate_ephemeral_key());
    assert_ne!(generate_salt(), generate_salt());
    let key = [3u8; 32];
    let first = encrypt_message(b"same", &key).unwrap();
    let second = encrypt_message(b"same", &key).unwrap();
    assert_ne!(first.iv, second.iv);
}

#[test]
fn hashing_is_a_function_of_password_and_salt() {
    let salt = [7u8; 32];
    let hash = hash_password_with_salt(b"pw", &salt);
    assert_eq!(hash, hash_password_with_salt(b"pw", &salt));
    assert_ne!(hash, hash_password_with_salt(b"pw", &[8u8; 32]));
    assert_ne!(hash, hash_password_with_salt(b"pW", &salt));
    assert_ne!(hash, salt);
    assert_ne!(hash, [0u8; 32]);
    let (first, first_salt) = hash_password(b"pw");
    let (second, second_salt) = hash_password(b"pw");
    assert_ne!(first_salt, second_salt);
    assert_ne!(first, second);
}

#[test]
fn key_part_is_folded_in_by_exclusive_or() {
    let mut key = [0x0Fu8; 32];
    apply_ephemeral_key_part(&mut key, &[0xF0u8; 32]);
    assert_eq!(key, [0xFFu8; 32]);
    let mut key = [0u8; 32];
    let part: Vec<u8> = (0u8..32).collect();
    apply_ephemeral_key_part(&mut key, &part);
    assert_eq!(key.to_vec(), part);
    key[0] = 0b1010_1010;
    let mut mask = [0u8; 32];
    mask[0] = 0b0110_0110;
    apply_ephemeral_key_part(&mut key, &mask);
    assert_eq!(key[0], 0b1100_1100);
    assert_eq!(key[1..].to_vec(), part[1..].to_vec());
}

#[test]
fn parts_fold_to_the_same_key_in_any_order() {
    let parts = [generate_ephemeral_key(), generate_ephemeral_key(), generate_ephemeral_key()];
    let mut expected = [0u8; 32];
    for i in 0..32 {
        expected[i] = parts[0][i] ^ parts[1][i] ^ parts[2][i];
    }
    for order in [[0usize, 1, 2], [0, 2, 1], [1, 0, 2], [1, 2, 0], [2, 0, 1], [2, 1, 0]] {
        let mut key = parts[order[0]];
        apply_ephemeral_key_part(&mut key, &parts[order[1]]);
        apply_ephemeral_key_part(&mut key, &parts[order[2]]);
        assert_eq!(key, expected);
    }
    let mut twice = parts[0];
    apply_ephemeral_key_part(&mut twice, &parts[1]);
    apply_ephemeral_key_part(&mut twice, &parts[1]);
    assert_eq!(twice, parts[0]);
}

fn hex(text: &str) -> Vec<u8> {
    (0..text.len()).step_by(2).map(|i| u8::from_str_radix(&text[i..i + 2], 16).unwrap()).collect()
}

#[test]
fn encryption_matches_known_answers() {
    let result = encrypt_message_with_iv(b"same", &[3u8; 32], [5u8; 12]).unwrap();
    assert_eq!(result.ciphertext, hex("8f8e9066e528d13a522a7eba823a4a7492d4e1c8"));

    let key: Vec<u8> = (0u8..32).collect();
    let mut iv = [0u8; 12];
    for i in 0..12 {
        iv[i] = i as u8;
    }
    let result = encrypt_message_with_iv(b"Hello, world!", &key, iv).unwrap();
    assert_eq!(
        result.ciphertext,
        hex("c19e646c463b8537d8f15397b9835b939bb7269d8555ff81d4da09c0a5")
    );
    let mut key_array = [0u8; 32];
    key_array.copy_from_slice(&key);
    let known = EncryptionResult {
        ciphertext: hex("c19e646c463b8537d8f15397b9835b939bb7269d8555ff81d4da09c0a5"),
        iv,
    };
    assert_eq!(decrypt_message(&key_array, &known).unwrap(), b"Hello, world!".to_vec());
}

#[test]
fn hashing_matches_known_answers() {
    assert_eq!(
        hash_password_with_salt(b"pw", &[7u8; 32]).to_vec(),
        hex("794740e06e5c3c399596d74b9761ce25f0e8e251e72a315a98f9e89497cba096")
    );
    let mut salt = [0u8; 32];
    for i in 0..32 {
        salt[i] = i as u8;
    }
    assert_eq!(
        hash_password_with_salt(b"password", &salt).to_vec(),
        hex("fb45cd4ee9e3e3638cbe730ac083cdb86971339355117ffb093c4a4e4f0ce888")
    );
}
