use mcp_core::config::token::hex_token;
use mcp_core::generate_random_token;

#[test]
fn test_token_length() {
    let token = generate_random_token().expect("OS random source");
    assert_eq!(token.len(), 32);
}

#[test]
fn test_token_is_hex() {
    let token = generate_random_token().expect("OS random source");
    assert!(token.chars().all(|c| c.is_ascii_hexdigit()));
}

#[test]
fn test_tokens_are_unique() {
    let token1 = generate_random_token().expect("OS random source");
    let token2 = generate_random_token().expect("OS random source");
    assert_ne!(token1, token2);
}

#[test]
fn token_is_lower_case() {
    let token = generate_random_token().expect("OS random source");
    assert!(token.chars().all(|c| c.is_ascii_digit() || ('a'..='f').contains(&c)));
}

#[test]
fn hex_token_exact_values() {
    assert_eq!(hex_token(&[]), "");
    assert_eq!(hex_token(&[0x00, 0x0f, 0x10, 0xab, 0xff]), "000f10abff");
    let bytes: Vec<u8> = (0u8..16).collect();
    assert_eq!(hex_token(&bytes), "000102030405060708090a0b0c0d0e0f");
}

#[test]
fn hex_token_distinguishes_inputs() {
    assert_ne!(hex_token(&[1, 2]), hex_token(&[0x12]));
    assert_ne!(hex_token(&[0xa0]), hex_token(&[0x0a]));
}
