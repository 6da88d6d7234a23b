use tentech::token::{
    escape_url_component, mint, seal, validate, TokenError, TokenKey, NONCE_LEN, TOKEN_LIFETIME_SECS,
};

fn key() -> TokenKey {
    TokenKey::new(b"0123456789abcdef0123456789abcdef".to_vec()).unwrap()
}

fn hex(b: &[u8]) -> String {
    b.iter().map(|x| format!("{:02x}", x)).collect()
}

#[test]
fn key_must_hold_32_bytes() {
    assert!(TokenKey::new(Vec::new()).is_none());
    assert!(TokenKey::new(vec![7; 31]).is_none());
    assert!(TokenKey::new(vec![7; 33]).is_none());
    assert!(TokenKey::new(vec![7; 32]).is_some());
}

#[test]
fn sealed_text_layout() {
    let nonce = vec![9u8; NONCE_LEN];
    let payload = b"abc".to_vec();
    let t = seal(&key(), &nonce, 5, &payload);
    // nonce, then expiry (8) + payload (3) encrypted, then a 16-byte tag; two hex digits per byte
    assert_eq!(t.len(), 2 * (NONCE_LEN + 8 + 3 + 16));
    assert!(t.starts_with(&hex(&nonce)));
    assert!(t.bytes().all(|c| c.is_ascii_digit() || (b'a'..=b'f').contains(&c)));
    assert_eq!(validate(&key(), &t, 4), Ok(payload));
    assert_eq!(validate(&key(), &t, 5), Err(TokenError::Expired));
}

#[test]
fn payload_is_not_readable_in_the_token() {
    let payload = b"ann@example.com".to_vec();
    let (raw, _) = mint(&key(), 1_000, &payload);
    assert!(!raw.contains(&hex(&payload)));
    let expiry = (1_000 + TOKEN_LIFETIME_SECS).to_le_bytes();
    assert!(!raw.contains(&hex(&expiry)));
}

#[test]
fn tokens_use_fresh_nonces() {
    let payload = b"same".to_vec();
    let (a, _) = mint(&key(), 1_000, &payload);
    let (b, _) = mint(&key(), 1_000, &payload);
    assert_ne!(a, b);
}

#[test]
fn round_trip_before_expiry() {
    let k = key();
    let payload = br#"{"id":1,"username":"ann"}"#.to_vec();
    let (raw, url) = mint(&k, 1_000, &payload);
    assert_eq!(raw, url);
    assert_eq!(validate(&k, &raw, 1_000), Ok(payload.clone()));
    assert_eq!(validate(&k, &raw, 1_000 + TOKEN_LIFETIME_SECS - 1), Ok(payload));
}

#[test]
fn round_trip_of_empty_payload() {
    let (raw, _) = mint(&key(), 0, &Vec::new());
    assert_eq!(validate(&key(), &raw, 0), Ok(Vec::new()));
}

#[test]
fn expired_from_lifetime_end() {
    let k = key();
    let (raw, _) = mint(&k, 1_000, &b"x".to_vec());
    assert_eq!(validate(&k, &raw, 1_000 + TOKEN_LIFETIME_SECS), Err(TokenError::Expired));
    assert_eq!(validate(&k, &raw, u64::MAX), Err(TokenError::Expired));
}

#[test]
fn lifetime_is_one_day() {
    assert_eq!(TOKEN_LIFETIME_SECS, 24 * 60 * 60);
}

#[test]
fn tampering_any_byte_is_invalid() {
    let k = key();
    let (raw, _) = mint(&k, 50, &b"payload".to_vec());
    let bytes = raw.as_bytes().to_vec();
    for i in 0..bytes.len() {
        for c in [b'0', b'7', b'a', b'f', b'F', b'z', b'%'] {
            if c == bytes[i] {
                continue;
            }
            let mut changed = bytes.clone();
            changed[i] = c;
            let text = String::from_utf8(changed).unwrap();
            assert_eq!(validate(&k, &text, 60), Err(TokenError::Invalid));
        }
    }
}

#[test]
fn wrong_key_is_invalid() {
    let (raw, _) = mint(&key(), 50, &b"payload".to_vec());
    let other = TokenKey::new(vec![1; 32]).unwrap();
    assert_eq!(validate(&other, &raw, 60), Err(TokenError::Invalid));
}

#[test]
fn malformed_text_is_invalid() {
    let k = key();
    assert_eq!(validate(&k, "", 0), Err(TokenError::Invalid));
    assert_eq!(validate(&k, "abc", 0), Err(TokenError::Invalid));
    assert_eq!(validate(&k, "0101", 0), Err(TokenError::Invalid));
    assert_eq!(validate(&k, &"00".repeat(40), 0), Err(TokenError::Invalid));
    assert_eq!(validate(&k, "é", 0), Err(TokenError::Invalid));
}

#[test]
fn escape_keeps_alphanumerics_and_escapes_the_rest() {
    assert_eq!(escape_url_component("a b/c"), "a%20b%2Fc");
    assert_eq!(escape_url_component("Az09"), "Az09");
    assert_eq!(escape_url_component("é"), "%C3%A9");
    assert_eq!(escape_url_component(""), "");
}
