use backend::token::{new_device_token, new_session_token, token_from_le_bytes};
use rand_chacha::ChaCha8Rng;
use rand_core::{RngCore, SeedableRng};

#[test]
fn empty_bytes_are_zero() {
    assert_eq!(token_from_le_bytes(&[]), "0");
}

#[test]
fn bytes_are_little_endian() {
    assert_eq!(token_from_le_bytes(&[1, 0]), "1");
    assert_eq!(token_from_le_bytes(&[0, 1]), "256");
    assert_eq!(token_from_le_bytes(&[0x39, 0x30]), "12345");
    assert_eq!(token_from_le_bytes(&[0; 16]), "0");
}

#[test]
fn largest_session_token() {
    assert_eq!(token_from_le_bytes(&[0xff; 16]), "340282366920938463463374607431768211455");
}

#[test]
fn largest_device_token() {
    assert_eq!(token_from_le_bytes(&[0xff; 8]), "18446744073709551615");
}

#[test]
fn tokens_agree_with_std() {
    let samples: [[u8; 16]; 3] = [
        [7, 0, 0, 0, 0, 0, 0, 0, 0, 0, 0, 0, 0, 0, 0, 9],
        [1, 2, 3, 4, 5, 6, 7, 8, 9, 10, 11, 12, 13, 14, 15, 16],
        [200, 100, 50, 25, 12, 6, 3, 1, 0, 255, 128, 64, 32, 16, 8, 4],
    ];
    for bytes in samples {
        assert_eq!(token_from_le_bytes(&bytes), u128::from_le_bytes(bytes).to_string());
        let short: [u8; 8] = bytes[..8].try_into().unwrap();
        assert_eq!(token_from_le_bytes(&short), u64::from_le_bytes(short).to_string());
    }
}

#[test]
fn session_token_is_the_drawn_bytes() {
    let mut rng = ChaCha8Rng::seed_from_u64(42);
    let mut twin = ChaCha8Rng::seed_from_u64(42);
    let token = new_session_token(&mut rng);
    let mut bytes = [0u8; 16];
    twin.fill_bytes(&mut bytes);
    assert_eq!(token, u128::from_le_bytes(bytes).to_string());
}

#[test]
fn device_token_is_the_drawn_bytes() {
    let mut rng = ChaCha8Rng::seed_from_u64(7);
    let mut twin = ChaCha8Rng::seed_from_u64(7);
    let token = new_device_token(&mut rng);
    let mut bytes = [0u8; 8];
    twin.fill_bytes(&mut bytes);
    assert_eq!(token, u64::from_le_bytes(bytes).to_string());
}

#[test]
fn successive_tokens_differ() {
    let mut rng = ChaCha8Rng::seed_from_u64(1);
    let a = new_session_token(&mut rng);
    let b = new_session_token(&mut rng);
    assert_ne!(a, b);
}

#[test]
fn different_bytes_give_different_tokens() {
    assert_ne!(token_from_le_bytes(&[1, 2]), token_from_le_bytes(&[2, 1]));
    assert_ne!(token_from_le_bytes(&[10, 0]), token_from_le_bytes(&[1, 0]));
}

#[test]
fn tokens_are_digits() {
    let mut rng = ChaCha8Rng::seed_from_u64(3);
    let token = new_session_token(&mut rng);
    assert!(!token.is_empty());
    assert!(token.chars().all(|c| c.is_ascii_digit()));
}
