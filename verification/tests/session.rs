use chating::cli::parse_cli;
use chating::chat::{classify_input, open_message, seal_message, Incoming, InputAction, RunPlan};
use chating::crypto::{generate_keypair, AESKeys, PrivKey, PubKey};
use chating::handshake::{connector_check, connector_hello, hello_for, listener_handshake, Reply};
use chating::types::{Connection, Mode};

struct Party {
    priv_key: PrivKey,
    pub_key: PubKey,
}

fn party(name: &str) -> Party {
    let g = generate_keypair(name).unwrap();
    Party { priv_key: PrivKey::load(&g.priv_pem).unwrap(), pub_key: PubKey::load(&g.pub_pem).unwrap() }
}

#[test]
fn handshake_between_honest_parties() {
    let a = party("a");
    let b = party("b");
    let (pending, hello) = connector_hello(&a.priv_key, &b.pub_key).unwrap();
    let (aes, reply) = listener_handshake(&b.priv_key, &a.pub_key, &hello).unwrap();
    assert_eq!(aes, pending.aes);
    assert_eq!(connector_check(&pending, &b.pub_key, &reply), Ok(()));
}

#[test]
fn hello_for_a_chosen_key_and_nonce() {
    let a = party("a");
    let b = party("b");
    let aes = AESKeys::from_bytes(&[3u8; 48]).unwrap();
    let nonce = vec![7u8; 32];
    let (pending, hello) = hello_for(&a.priv_key, &b.pub_key, AESKeys::from_bytes(&[3u8; 48]).unwrap(), nonce.clone()).unwrap();
    assert_eq!(pending.aes, aes);
    assert_eq!(pending.nonce, nonce);
    assert_eq!(hello.enc_aes.len(), 256);
    assert_eq!(hello.enc_nonce, aes.encrypt(&nonce).unwrap());
    assert_eq!(hello.enc_nonce.len(), 48);
    assert!(a.pub_key.verify(&chating::crypto::hash_sha256(&nonce).unwrap(), &hello.sig).unwrap());
    let (got, reply) = listener_handshake(&b.priv_key, &a.pub_key, &hello).unwrap();
    assert_eq!(got, aes);
    assert_eq!(connector_check(&pending, &b.pub_key, &reply), Ok(()));
}

#[test]
fn handshake_rejects_wrong_signer() {
    let a = party("a");
    let b = party("b");
    let m = party("m");
    let (_, hello) = connector_hello(&m.priv_key, &b.pub_key).unwrap();
    assert_eq!(
        listener_handshake(&b.priv_key, &a.pub_key, &hello).err().unwrap(),
        "handshake: peer signature invalid"
    );
}

#[test]
fn handshake_rejects_key_for_someone_else() {
    let a = party("a");
    let b = party("b");
    let m = party("m");
    let (_, hello) = connector_hello(&a.priv_key, &m.pub_key).unwrap();
    let e = listener_handshake(&b.priv_key, &a.pub_key, &hello).err().unwrap();
    assert!(e.starts_with("rsa decrypt failed: "));
}

#[test]
fn connector_rejects_bad_replies() {
    let a = party("a");
    let b = party("b");
    let (pending, hello) = connector_hello(&a.priv_key, &b.pub_key).unwrap();
    let (aes, reply) = listener_handshake(&b.priv_key, &a.pub_key, &hello).unwrap();
    let other_nonce = Reply { enc_nonce: aes.encrypt(b"another nonce").unwrap(), sig: reply.sig.clone() };
    assert_eq!(
        connector_check(&pending, &b.pub_key, &other_nonce),
        Err("handshake: peer returned wrong nonce".to_string())
    );
    let bad_sig = Reply { enc_nonce: reply.enc_nonce.clone(), sig: vec![1u8; 256] };
    assert_eq!(
        connector_check(&pending, &b.pub_key, &bad_sig),
        Err("handshake: peer signature invalid".to_string())
    );
}

#[test]
fn messages_travel_between_parties() {
    let a = party("a");
    let b = party("b");
    let aes = AESKeys::new().unwrap();
    let (cipher, sig) = seal_message(&aes, &a.priv_key, b"hi there\n").unwrap();
    match open_message(&aes, &a.pub_key, &cipher, &sig) {
        Incoming::Accepted(p) => assert_eq!(p, b"hi there\n"),
        _ => panic!("message not accepted"),
    }
    assert!(matches!(open_message(&aes, &b.pub_key, &cipher, &sig), Incoming::Rejected));
    let mut tampered = cipher.clone();
    tampered[0] ^= 1;
    assert!(matches!(open_message(&aes, &a.pub_key, &tampered, &sig), Incoming::Rejected));
    let other = AESKeys::new().unwrap();
    assert!(matches!(
        open_message(&other, &a.pub_key, &cipher, &sig),
        Incoming::Accepted(_) | Incoming::DecryptFailed(_)
    ));
}

#[test]
fn input_lines() {
    assert!(matches!(classify_input("quit\n"), InputAction::Quit));
    assert!(matches!(classify_input("  quit \t\r\n"), InputAction::Quit));
    assert!(matches!(classify_input("\u{3000}quit\u{a0}"), InputAction::Quit));
    assert!(matches!(classify_input("quits\n"), InputAction::Send));
    assert!(matches!(classify_input("Quit\n"), InputAction::Send));
    assert!(matches!(classify_input(""), InputAction::Skip));
    assert!(matches!(classify_input(" \n\t\u{2028}"), InputAction::Skip));
    assert!(matches!(classify_input("hello\n"), InputAction::Send));
    for s in ["a", " b ", "\u{85}x\u{200a}", "\u{200b}"] {
        let expect_skip = s.trim().is_empty();
        assert_eq!(matches!(classify_input(s), InputAction::Skip), expect_skip, "{s:?}");
    }
}

#[test]
fn run_plans() {
    let mut c = Connection::default();
    c.set_mode(Mode::Setup);
    assert_eq!(c.run_plan().err().unwrap(), "setup: missing --out-dir");
    c.set_out_dir("keys".to_string());
    assert!(matches!(c.run_plan(), Ok(RunPlan::Setup { out_dir }) if out_dir == "keys"));

    let mut c = Connection::default();
    assert_eq!(c.run_plan().err().unwrap(), "missing --my-priv");
    c.set_my_priv("a".to_string());
    assert!(matches!(c.run_plan(), Ok(RunPlan::Peer { connector: true, .. })));
    assert_eq!(c.peer_pub_path().err().unwrap(), "missing --peer-pub");
    c.set_peer_pub("b".to_string());
    assert_eq!(c.peer_pub_path(), Ok("b".to_string()));
    c.set_mode(Mode::Listen);
    assert!(matches!(c.run_plan(), Ok(RunPlan::Peer { connector: false, ref my_priv }) if my_priv == "a"));
}

#[test]
fn parsed_command_lines_have_a_plan() {
    for line in [
        vec!["setup", "--out-dir", "k"],
        vec!["listen", "--port", "9", "--my-priv", "a", "--peer-pub", "b"],
        vec!["connect", "--port", "9", "--my-priv", "a", "--peer-pub", "b", "--ip", "1.2.3.4"],
        vec!["connect", "--ip", "0.0.0.0", "--port", "9", "--my-priv", "a", "--peer-pub", "b"],
    ] {
        let args: Vec<String> = line.iter().map(|s| s.to_string()).collect();
        let mut c = Connection::default();
        assert_eq!(parse_cli(&mut c, &args), Ok(()));
        assert!(c.run_plan().is_ok());
        if *c.mode() != Mode::Setup {
            assert_ne!(c.port(), 0);
        }
    }
}
