use komga_infra::identity::{generated_api_key_id, generated_api_key_secret, low_bytes, random_bytes};

#[test]
fn generated_api_key_credentials_are_opaque_hex_tokens() {
    let secret = generated_api_key_secret();
    let id = generated_api_key_id();

    assert_eq!(secret.len(), 128);
    assert_eq!(id.len(), 24);
    assert!(secret.chars().all(|character| character.is_ascii_hexdigit()));
    assert!(id.chars().all(|character| character.is_ascii_hexdigit()));
}

use komga_infra::identity::{
    find_user_by_email, generated_historical_event_id, generated_oauth_password, hex_string,
    normalize_api_key_comment, oauth_user_id, presented_api_key, random_hex_token,
    random_prefixed_id, sha256_hex, sha512_hex, ApiKeyRequestError,
};

#[test]
fn sha512_hex_of_known_inputs() {
    assert_eq!(
        sha512_hex(""),
        "cf83e1357eefb8bdf1542850d66d8007d620e4050b5715dc83f4a921d36ce9ce47d0d13c5d85f2b0ff8318d2877eec2f63b931bd47417a81a538327af927da3e"
    );
    assert_eq!(sha512_hex("key").len(), 128);
}

#[test]
fn sha256_hex_and_oauth_ids() {
    assert_eq!(sha256_hex(b"abc"), "ba7816bf8f01cfea414140de5dae2223b00361a396177a9cb410ff61f20015ad");
    assert_eq!(
        oauth_user_id("  ABC "),
        "oauth2-ba7816bf8f01cfea414140de5dae2223b00361a396177a9cb410ff61f20015ad"
    );
    assert_eq!(oauth_user_id("abc"), oauth_user_id("Abc"));
}

#[test]
fn hex_string_writes_two_lowercase_digits_per_byte() {
    assert_eq!(hex_string(&[0x00, 0x0f, 0xa0, 0xff]), "000fa0ff");
    assert_eq!(hex_string(&[]), "");
}

#[test]
fn random_tokens_and_prefixed_ids() {
    let a = random_hex_token(16);
    let b = random_hex_token(16);
    assert_eq!(a.len(), 32);
    assert_ne!(a, b);
    assert_eq!(generated_oauth_password().len(), 64);
    let id = random_prefixed_id("evt");
    assert!(id.starts_with("evt-"));
    assert_eq!(id.len(), 3 + 1 + 24);
    assert!(id[4..].chars().all(|c| c.is_ascii_hexdigit() && !c.is_ascii_uppercase()));
    let event = generated_historical_event_id();
    assert!(event.starts_with("historical-event-"));
    assert_eq!(event.len(), 41);
}

#[test]
fn users_are_found_by_email_without_regard_to_case() {
    let emails = vec!["a@x.org".to_string(), "Admin@Example.com".to_string(), "admin@example.com".to_string()];
    assert_eq!(find_user_by_email(&emails, "ADMIN@example.COM"), Some(1));
    assert_eq!(find_user_by_email(&emails, "nobody@example.com"), None);
}

#[test]
fn api_key_comments_and_presented_keys_are_trimmed() {
    assert_eq!(normalize_api_key_comment("  device ").unwrap(), "device");
    assert_eq!(normalize_api_key_comment(" \t").unwrap_err(), ApiKeyRequestError::BlankComment);
    assert_eq!(ApiKeyRequestError::BlankComment.message(), "api key comment must not be blank");
    assert_eq!(presented_api_key(" abc ").as_deref(), Some("abc"));
    assert_eq!(presented_api_key("   "), None);
}

#[test]
fn random_bytes_are_the_low_bytes_of_drawn_words() {
    assert_eq!(low_bytes(&[0x1ff, 0, 0xabcd, u64::MAX]), vec![0xff, 0, 0xcd, 0xff]);
    assert_eq!(random_bytes(7).len(), 7);
}
