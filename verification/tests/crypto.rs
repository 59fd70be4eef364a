use chating::crypto::{generate_keypair, hash_sha256, random_nonce, AESKeys, PrivKey, PubKey};

fn hex(s: &str) -> Vec<u8> {
    (0..s.len() / 2)
        .map(|i| u8::from_str_radix(&s[2 * i..2 * i + 2], 16).unwrap())
        .collect()
}

fn known_keys() -> AESKeys {
    let mut bytes: Vec<u8> = (0u8..32).collect();
    bytes.extend(hex("00112233445566778899aabbccddeeff"));
    AESKeys::from_bytes(&bytes).unwrap()
}

#[test]
fn test_keypair_roundtrip() {
    let keys = generate_keypair("A").unwrap();
    assert_eq!(keys.priv_file, "A_priv.pem");
    assert_eq!(keys.pub_file, "A_pub.pem");

    let priv_key = PrivKey::load(&keys.priv_pem).unwrap();
    let pub_key = PubKey::load(&keys.pub_pem).unwrap();

    let plain = b"hello world";
    let cipher = pub_key.encrypt(plain).unwrap();
    let recovered = priv_key.decrypt(&cipher).unwrap();
    assert_eq!(recovered, plain);

    let sig = priv_key.sign(plain).unwrap();
    assert!(pub_key.verify(plain, &sig).unwrap());
    assert!(!pub_key.verify(b"tampered", &sig).unwrap());
}

#[test]
fn test_aes_roundtrip() {
    let keys = AESKeys::new().unwrap();
    let plain = b"nice_secret_message";
    let cipher = keys.encrypt(plain).unwrap();
    let recovered = keys.decrypt(&cipher).unwrap();
    assert_eq!(recovered, plain);
}

#[test]
fn test_aes_to_from_bytes() {
    let keys = AESKeys::new().unwrap();
    let bytes = keys.to_bytes();
    let recovered = AESKeys::from_bytes(&bytes).unwrap();
    assert_eq!(recovered, keys);
}

#[test]
fn aes_known_answer() {
    let keys = known_keys();
    let cipher = keys.encrypt(b"nice_secret_message").unwrap();
    assert_eq!(
        cipher,
        hex("a6c8ed17b810dca446598f8cdb3fabe499eaff0cb3b57cf1ed2f4844ab2da070")
    );
    assert_eq!(keys.decrypt(&cipher).unwrap(), b"nice_secret_message");
}

#[test]
fn aes_decrypt_rejects_bad_padding() {
    let keys = known_keys();
    let e = keys.decrypt(&[0u8; 15]).unwrap_err();
    assert!(e.starts_with("aes decrypt failed: "));
}

#[test]
fn aes_key_bytes_layout() {
    let keys = known_keys();
    let bytes = keys.to_bytes();
    assert_eq!(bytes.len(), 48);
    assert_eq!(&bytes[..32], &(0u8..32).collect::<Vec<u8>>()[..]);
    assert_eq!(&bytes[32..], &hex("00112233445566778899aabbccddeeff")[..]);
}

#[test]
fn aes_from_bytes_wrong_length() {
    assert_eq!(
        AESKeys::from_bytes(&[0u8; 47]).unwrap_err(),
        "AES key and IV must be 48 bytes total"
    );
    assert_eq!(
        AESKeys::from_bytes(&[0u8; 49]).unwrap_err(),
        "AES key and IV must be 48 bytes total"
    );
    assert!(AESKeys::from_bytes(&[]).is_err());
}

#[test]
fn sha256_known_answer() {
    assert_eq!(
        hash_sha256(b"abc").unwrap(),
        hex("ba7816bf8f01cfea414140de5dae2223b00361a396177a9cb410ff61f20015ad")
    );
    assert_eq!(
        hash_sha256(b"").unwrap(),
        hex("e3b0c44298fc1c149afbf4c8996fb92427ae41e4649b934ca495991b7852b855")
    );
}

#[test]
fn nonce_is_32_random_bytes() {
    let a = random_nonce().unwrap();
    let b = random_nonce().unwrap();
    assert_eq!(a.len(), 32);
    assert_eq!(b.len(), 32);
    assert_ne!(a, b);
}

#[test]
fn rsa_load_errors() {
    let e = PrivKey::load(b"not a key").err().unwrap();
    assert!(e.starts_with("failed to parse private key: "));
    let e = PubKey::load(b"not a key").err().unwrap();
    assert!(e.starts_with("failed to parse public key: "));
}

#[test]
fn rsa_public_pem_is_not_a_private_key() {
    let keys = generate_keypair("B").unwrap();
    assert!(PrivKey::load(&keys.pub_pem).is_err());
    assert!(PubKey::load(&keys.priv_pem).is_err());
}

#[test]
fn rsa_encryption_is_randomised_and_keys_differ() {
    let a = generate_keypair("a").unwrap();
    let b = generate_keypair("b").unwrap();
    let a_pub = PubKey::load(&a.pub_pem).unwrap();
    let b_priv = PrivKey::load(&b.priv_pem).unwrap();
    let a_priv = PrivKey::load(&a.priv_pem).unwrap();
    let c1 = a_pub.encrypt(b"m").unwrap();
    let c2 = a_pub.encrypt(b"m").unwrap();
    assert_ne!(c1, c2);
    assert_eq!(c1.len(), 256);
    assert_eq!(a_priv.decrypt(&c2).unwrap(), b"m");
    let e = b_priv.decrypt(&c1).unwrap_err();
    assert!(e.starts_with("rsa decrypt failed: "));
}

#[test]
fn rsa_signature_is_deterministic_and_bound_to_key() {
    let a = generate_keypair("a").unwrap();
    let b = generate_keypair("b").unwrap();
    let a_priv = PrivKey::load(&a.priv_pem).unwrap();
    let b_pub = PubKey::load(&b.pub_pem).unwrap();
    let s1 = a_priv.sign(b"data").unwrap();
    let s2 = a_priv.sign(b"data").unwrap();
    assert_eq!(s1, s2);
    assert_eq!(s1.len(), 256);
    assert!(!b_pub.verify(b"data", &s1).unwrap());
    assert!(!PubKey::load(&a.pub_pem).unwrap().verify(b"data", &s1[..10]).unwrap());
}

#[test]
fn aes_ciphertext_lengths() {
    let keys = known_keys();
    for n in [0usize, 1, 15, 16, 17, 31, 32, 100] {
        let plain = vec![9u8; n];
        let c = keys.encrypt(&plain).unwrap();
        assert_eq!(c.len(), 16 * (n / 16 + 1));
        assert_eq!(keys.decrypt(&c).unwrap(), plain);
    }
    assert!(keys.decrypt(&[]).unwrap_err().starts_with("aes decrypt failed: "));
    assert!(keys.decrypt(&[1u8; 17]).unwrap_err().starts_with("aes decrypt failed: "));
}

#[test]
fn rsa_encrypt_limit() {
    let g = generate_keypair("k").unwrap();
    let pk = PubKey::load(&g.pub_pem).unwrap();
    let sk = PrivKey::load(&g.priv_pem).unwrap();
    let c = pk.encrypt(&[5u8; 214]).unwrap();
    assert_eq!(c.len(), 256);
    assert_eq!(sk.decrypt(&c).unwrap(), vec![5u8; 214]);
    assert!(pk.encrypt(&[5u8; 215]).unwrap_err().starts_with("rsa encrypt failed: "));
}
