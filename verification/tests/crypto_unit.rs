use oreno_quic::crypto::{construct_nonce, EncryptionLevel, QuicCrypto};

#[test]
fn crypto_test_crypto_creation() {
    let crypto = QuicCrypto::new();
    assert_eq!(crypto.keys_count(), 0);
}

#[test]
fn crypto_test_initial_keys_setup() {
    let mut crypto = QuicCrypto::new();
    let conn_id = b"test_connection_id";
    
    let result = crypto.setup_initial_keys(conn_id, true);
    if let Err(e) = &result {
        println!("Setup error: {:?}", e);
    }
    assert!(result.is_ok());
    assert!(crypto.has_keys(&EncryptionLevel::Initial));
}

#[test]
fn crypto_test_nonce_construction() {
    let iv = [0u8; 12];
    let packet_number = 0x123456789abcdef0;
    let nonce = construct_nonce(&iv, packet_number);
    
    // The nonce should have the packet number XORed into the last 8 bytes
    let expected = [0, 0, 0, 0, 0x12, 0x34, 0x56, 0x78, 0x9a, 0xbc, 0xde, 0xf0];
    assert_eq!(nonce, expected);
}

#[test]
fn crypto_test_encrypt_decrypt_roundtrip() {
    let mut crypto = QuicCrypto::new();
    let conn_id = b"test_connection_id";
    
    crypto.setup_initial_keys(conn_id, true).unwrap();
    
    // Sealing and opening need the keys of the level.
    assert!(crypto.has_keys(&EncryptionLevel::Initial));
}
