use vstd::prelude::*;
use vstd::string::*;
use crate::crypto::{
    hash_sha256, random_nonce, AESKeys, PrivKey, PubKey, AES_MAX_INPUT,
};

verus! {

/// The three messages that open a handshake, from the connecting side.
pub struct Hello {
    /// The session key and IV, RSA-encrypted to the listener.
    pub enc_aes: Vec<u8>,
    /// The nonce, encrypted under the session key.
    pub enc_nonce: Vec<u8>,
    /// The connector's signature over the SHA-256 digest of the nonce.
    pub sig: Vec<u8>,
}

/// The two messages that answer a hello, from the listening side.
pub struct Reply {
    /// The nonce, encrypted back under the session key.
    pub enc_nonce: Vec<u8>,
    /// The listener's signature over the SHA-256 digest of the nonce.
    pub sig: Vec<u8>,
}

/// What the connector keeps between its hello and the reply.
pub struct Pending {
    pub aes: AESKeys,
    pub nonce: Vec<u8>,
}

/// The message for a signature that the peer's key does not accept.
pub open spec fn bad_signature_msg() -> Seq<char> {
    "handshake: peer signature invalid"@
}

/// The message for a reply that does not give back the nonce.
pub open spec fn wrong_nonce_msg() -> Seq<char> {
    "handshake: peer returned wrong nonce"@
}

/// The message for a session key of the wrong length.
pub open spec fn key_length_msg() -> Seq<char> {
    "AES key and IV must be 48 bytes total"@
}

/// A hello as an honest connector with private key `sk` sends it to the
/// holder of the public key `pk`, for session key `key`/`iv` and nonce `n`.
pub open spec fn hello_from(
    sk: Seq<u8>,
    pk: Seq<u8>,
    key: Seq<u8>,
    iv: Seq<u8>,
    n: Seq<u8>,
    enc_aes: Seq<u8>,
    enc_nonce: Seq<u8>,
    sig: Seq<u8>,
) -> bool {
    &&& key.len() == 32
    &&& iv.len() == 16
    &&& n.len() == 32
    &&& forall|sk2: Seq<u8>| #[trigger] crate::crypto::rsa_key_pair(sk2, pk)
        ==> crate::crypto::rsa_oaep_decrypt(sk2, enc_aes) == Some(key + iv)
    &&& enc_nonce == crate::crypto::aes_256_cbc_encrypt(key, iv, n)
    &&& crate::crypto::rsa_sha256_sign(sk, crate::crypto::sha256_digest(n)) == Some(sig)
}

/// A reply as an honest listener with private key `sk` sends it for
/// session key `key`/`iv` and nonce `n`.
pub open spec fn reply_from(sk: Seq<u8>, key: Seq<u8>, iv: Seq<u8>, n: Seq<u8>, enc_nonce: Seq<u8>, sig: Seq<u8>) -> bool {
    &&& enc_nonce == crate::crypto::aes_256_cbc_encrypt(key, iv, n)
    &&& crate::crypto::rsa_sha256_sign(sk, crate::crypto::sha256_digest(n)) == Some(sig)
}

/// The hello for a given session key and nonce: the key and IV (48 bytes)
/// encrypted to the peer with RSA-OAEP, the nonce encrypted under the
/// session key, and a signature over the nonce's SHA-256 digest.
pub fn hello_for(my_priv: &PrivKey, peer_pub: &PubKey, aes: AESKeys, nonce: Vec<u8>) -> (r: Result<
    (Pending, Hello),
    String,
>)
    requires
        nonce@.len() == 32,
    ensures
        r matches Ok((p, h)) ==> p.aes@ == aes@ && p.nonce@ == nonce@ && hello_from(
            my_priv@,
            peer_pub@,
            aes@.0,
            aes@.1,
            nonce@,
            h.enc_aes@,
            h.enc_nonce@,
            h.sig@,
        ) && h.enc_aes@.len() == crate::crypto::rsa_public_size(peer_pub@) && h.enc_nonce@.len()
            == 48,
        r matches Err(e) ==> crate::crypto::has_prefix(e@, "rsa encrypt failed: "@) || (
        crate::crypto::rsa_sha256_sign(my_priv@, crate::crypto::sha256_digest(nonce@)) is None
            && crate::crypto::sign_failure_msg(e@)),
        crate::crypto::rsa_sha256_sign(my_priv@, crate::crypto::sha256_digest(nonce@)) is None
            ==> r is Err,
        48 + 42 > crate::crypto::rsa_public_size(peer_pub@) ==> r is Err,
{
    let nonce_hash = hash_sha256(nonce.as_slice())?;
    let key_bytes = aes.to_bytes();
    let enc_aes = peer_pub.encrypt(key_bytes.as_slice())?;
    let enc_nonce = aes.encrypt(nonce.as_slice())?;
    let sig = my_priv.sign(nonce_hash.as_slice())?;
    Ok((Pending { aes, nonce }, Hello { enc_aes, enc_nonce, sig }))
}

/// The connector's first step: a fresh session key and nonce, and the hello
/// that carries them (`hello_for`). The key and nonce are random, so whether
/// the random source succeeds is OpenSSL's to decide; what follows for
/// each drawn value is `hello_for`'s contract.
pub fn connector_hello(my_priv: &PrivKey, peer_pub: &PubKey) -> (r: Result<(Pending, Hello), String>)
    ensures
        r matches Ok((p, h)) ==> hello_from(
            my_priv@,
            peer_pub@,
            p.aes@.0,
            p.aes@.1,
            p.nonce@,
            h.enc_aes@,
            h.enc_nonce@,
            h.sig@,
        ) && h.enc_aes@.len() == crate::crypto::rsa_public_size(peer_pub@) && h.enc_nonce@.len()
            == 48,
        r matches Err(e) ==> crate::crypto::has_prefix(e@, "random generation failed: "@)
            || crate::crypto::has_prefix(e@, "rsa encrypt failed: "@)
            || crate::crypto::sign_failure_msg(e@),
        48 + 42 > crate::crypto::rsa_public_size(peer_pub@) ==> r is Err,
{
    let aes = AESKeys::new()?;
    let nonce = random_nonce()?;
    hello_for(my_priv, peer_pub, aes, nonce)
}

/// What the connector's check of a reply comes to.
pub enum CheckSpec {
    /// The reply does not decrypt under the session key.
    DecryptFails,
    /// It decrypts to something other than the nonce.
    WrongNonce,
    /// Checking the signature fails.
    VerifyFails,
    /// The peer's key does not accept the signature.
    BadSignature,
    /// The reply is accepted.
    Accept,
}

/// What the connector's check of a reply comes to, step by step: decrypt,
/// compare with the nonce, check the signature over the nonce's digest.
pub open spec fn spec_connector_check(
    key: Seq<u8>,
    iv: Seq<u8>,
    n: Seq<u8>,
    peer: Seq<u8>,
    enc_nonce: Seq<u8>,
    sig: Seq<u8>,
) -> CheckSpec {
    match crate::crypto::aes_256_cbc_decrypt(key, iv, enc_nonce) {
        None => CheckSpec::DecryptFails,
        Some(x) => if x != n {
            CheckSpec::WrongNonce
        } else {
            match crate::crypto::rsa_sha256_verify(peer, crate::crypto::sha256_digest(n), sig) {
                None => CheckSpec::VerifyFails,
                Some(false) => CheckSpec::BadSignature,
                Some(true) => CheckSpec::Accept,
            }
        },
    }
}

/// The connector's last step: checks that the reply gives back the nonce
/// and is signed by the peer. A reply that the peer's matching private key
/// made honestly is accepted.
pub fn connector_check(pending: &Pending, peer_pub: &PubKey, reply: &Reply) -> (r: Result<(), String>)
    requires
        reply.enc_nonce@.len() <= AES_MAX_INPUT,
    ensures
        match spec_connector_check(
            pending.aes@.0,
            pending.aes@.1,
            pending.nonce@,
            peer_pub@,
            reply.enc_nonce@,
            reply.sig@,
        ) {
            CheckSpec::DecryptFails => r matches Err(e) && crate::crypto::has_prefix(
                e@,
                "aes decrypt failed: "@,
            ),
            CheckSpec::WrongNonce => r matches Err(e) && e@ == wrong_nonce_msg(),
            CheckSpec::VerifyFails => r matches Err(e) && crate::crypto::verify_failure_msg(e@),
            CheckSpec::BadSignature => r matches Err(e) && e@ == bad_signature_msg(),
            CheckSpec::Accept => r is Ok,
        },
        (exists|sk: Seq<u8>| #[trigger] crate::crypto::rsa_key_pair(sk, peer_pub@) && reply_from(
            sk,
            pending.aes@.0,
            pending.aes@.1,
            pending.nonce@,
            reply.enc_nonce@,
            reply.sig@,
        )) ==> r is Ok,
{
    let resp_nonce = match pending.aes.decrypt(reply.enc_nonce.as_slice()) {
        Ok(n) => n,
        Err(e) => return Err(e),
    };
    if !bytes_eq(resp_nonce.as_slice(), pending.nonce.as_slice()) {
        return Err(String::from_str("handshake: peer returned wrong nonce"));
    }
    let resp_hash = match hash_sha256(resp_nonce.as_slice()) {
        Ok(h) => h,
        Err(e) => return Err(e),
    };
    let accepted = match peer_pub.verify(resp_hash.as_slice(), reply.sig.as_slice()) {
        Ok(b) => b,
        Err(e) => return Err(e),
    };
    if !accepted {
        return Err(String::from_str("handshake: peer signature invalid"));
    }
    Ok(())
}

/// What the listener makes of a hello.
pub enum ListenSpec {
    /// The session key does not decrypt under the listener's private key.
    KeyDecryptFails,
    /// It decrypts, but not to 48 bytes.
    KeyLength,
    /// The nonce does not decrypt under the session key.
    NonceDecryptFails,
    /// Checking the connector's signature fails.
    VerifyFails,
    /// The connector's key does not accept the signature.
    BadSignature,
    /// Signing the reply fails.
    SignFails,
    /// The hello is accepted with session key `key`/`iv` and nonce `n`;
    /// `sig` is the listener's signature over the nonce's digest.
    Accept { key: Seq<u8>, iv: Seq<u8>, n: Seq<u8>, sig: Seq<u8> },
}

/// What the listener makes of a hello, step by step: decrypt the session key
/// (48 bytes, key first), decrypt the nonce under it, check the connector's
/// signature over the nonce's digest, and sign that digest.
pub open spec fn spec_listener(
    my: Seq<u8>,
    peer: Seq<u8>,
    enc_aes: Seq<u8>,
    enc_nonce: Seq<u8>,
    sig: Seq<u8>,
) -> ListenSpec {
    match crate::crypto::rsa_oaep_decrypt(my, enc_aes) {
        None => ListenSpec::KeyDecryptFails,
        Some(b) => if b.len() != 48 {
            ListenSpec::KeyLength
        } else {
            let (key, iv) = crate::crypto::spec_split_key_bytes(b);
            match crate::crypto::aes_256_cbc_decrypt(key, iv, enc_nonce) {
                None => ListenSpec::NonceDecryptFails,
                Some(n) => {
                    let h = crate::crypto::sha256_digest(n);
                    match crate::crypto::rsa_sha256_verify(peer, h, sig) {
                        None => ListenSpec::VerifyFails,
                        Some(false) => ListenSpec::BadSignature,
                        Some(true) => match crate::crypto::rsa_sha256_sign(my, h) {
                            None => ListenSpec::SignFails,
                            Some(s) => ListenSpec::Accept { key, iv, n, sig: s },
                        },
                    }
                },
            }
        },
    }
}

/// The listener's step: reads the session key and nonce from the hello,
/// checks the connector's signature, and answers with the nonce encrypted
/// back and its own signature over the nonce's digest. A hello that an
/// honest connector sent to this listener's key is accepted, with the
/// connector's session key.
pub fn listener_handshake(my_priv: &PrivKey, peer_pub: &PubKey, hello: &Hello) -> (r: Result<(AESKeys, Reply), String>)
    requires
        hello.enc_aes@.len() <= i32::MAX,
        hello.enc_nonce@.len() <= AES_MAX_INPUT,
    ensures
        match spec_listener(my_priv@, peer_pub@, hello.enc_aes@, hello.enc_nonce@, hello.sig@) {
            ListenSpec::KeyDecryptFails => r matches Err(e) && crate::crypto::has_prefix(
                e@,
                "rsa decrypt failed: "@,
            ),
            ListenSpec::KeyLength => r matches Err(e) && e@ == key_length_msg(),
            ListenSpec::NonceDecryptFails => r matches Err(e) && crate::crypto::has_prefix(
                e@,
                "aes decrypt failed: "@,
            ),
            ListenSpec::VerifyFails => r matches Err(e) && crate::crypto::verify_failure_msg(e@),
            ListenSpec::BadSignature => r matches Err(e) && e@ == bad_signature_msg(),
            ListenSpec::SignFails => r matches Err(e) && crate::crypto::sign_failure_msg(e@),
            ListenSpec::Accept { key, iv, n, sig } => r matches Ok((aes, rep)) && aes@ == (key, iv)
                && rep.enc_nonce@ == crate::crypto::aes_256_cbc_encrypt(key, iv, n) && rep.sig@ == sig,
        },
        forall|sk: Seq<u8>, pk: Seq<u8>, key: Seq<u8>, iv: Seq<u8>, n: Seq<u8>|
            crate::crypto::rsa_key_pair(my_priv@, pk) && crate::crypto::signs_anything(my_priv@)
                && crate::crypto::rsa_key_pair(sk, peer_pub@) && #[trigger] hello_from(
                sk,
                pk,
                key,
                iv,
                n,
                hello.enc_aes@,
                hello.enc_nonce@,
                hello.sig@,
            ) ==> (r matches Ok((aes, rep)) && aes@ == (key, iv) && reply_from(
                my_priv@,
                key,
                iv,
                n,
                rep.enc_nonce@,
                rep.sig@,
            )),
{
    let aes_bytes = match my_priv.decrypt(hello.enc_aes.as_slice()) {
        Ok(b) => b,
        Err(e) => return Err(e),
    };
    proof {
        assert forall|sk: Seq<u8>, pk: Seq<u8>, key: Seq<u8>, iv: Seq<u8>, n: Seq<u8>|
            crate::crypto::rsa_key_pair(my_priv@, pk) && crate::crypto::rsa_key_pair(sk, peer_pub@)
                && #[trigger] hello_from(sk, pk, key, iv, n, hello.enc_aes@, hello.enc_nonce@, hello.sig@)
            implies aes_bytes@ == key + iv && (key + iv).len() == 48
                && crate::crypto::spec_split_key_bytes(key + iv) == (key, iv) by {
            assert(crate::crypto::rsa_key_pair(my_priv@, pk));
            crate::crypto::law_aes_key_bytes_roundtrip((key, iv), key + iv);
        }
    }
    let aes = match AESKeys::from_bytes(aes_bytes.as_slice()) {
        Ok(k) => k,
        Err(e) => return Err(e),
    };
    let nonce = match aes.decrypt(hello.enc_nonce.as_slice()) {
        Ok(n) => n,
        Err(e) => return Err(e),
    };
    let nonce_hash = match hash_sha256(nonce.as_slice()) {
        Ok(h) => h,
        Err(e) => return Err(e),
    };
    let accepted = match peer_pub.verify(nonce_hash.as_slice(), hello.sig.as_slice()) {
        Ok(b) => b,
        Err(e) => return Err(e),
    };
    proof {
        assert forall|sk: Seq<u8>, pk: Seq<u8>, key: Seq<u8>, iv: Seq<u8>, n: Seq<u8>|
            crate::crypto::rsa_key_pair(my_priv@, pk) && crate::crypto::rsa_key_pair(sk, peer_pub@)
                && #[trigger] hello_from(sk, pk, key, iv, n, hello.enc_aes@, hello.enc_nonce@, hello.sig@)
            implies aes@ == (key, iv) && nonce@ == n && accepted by {
            assert(aes@ == (key, iv));
            assert(hello.enc_nonce@ == crate::crypto::aes_256_cbc_encrypt(aes@.0, aes@.1, n));
            assert(nonce@ == n);
            assert(crate::crypto::rsa_key_pair(sk, peer_pub@) && crate::crypto::rsa_sha256_sign(sk, nonce_hash@) == Some(hello.sig@));
        }
    }
    if !accepted {
        return Err(String::from_str("handshake: peer signature invalid"));
    }
    let resp_enc_nonce = match aes.encrypt(nonce.as_slice()) {
        Ok(c) => c,
        Err(e) => return Err(e),
    };
    let resp_sig = match my_priv.sign(nonce_hash.as_slice()) {
        Ok(s) => s,
        Err(e) => return Err(e),
    };
    Ok((aes, Reply { enc_nonce: resp_enc_nonce, sig: resp_sig }))
}

/// Between parties whose keys are generated pairs (A holds `sk_a`, whose
/// public half B holds as `pk_a`, and the other way round for B), the hello
/// that A's `connector_hello` sends is one that B's `listener_handshake`
/// accepts, so B ends with A's session key; and the reply that B sends is
/// one that A's `connector_check` accepts.
pub proof fn law_handshake_agreement(
    sk_a: Seq<u8>,
    pk_a: Seq<u8>,
    sk_b: Seq<u8>,
    pk_b: Seq<u8>,
    key: Seq<u8>,
    iv: Seq<u8>,
    n: Seq<u8>,
    hello: (Seq<u8>, Seq<u8>, Seq<u8>),
    reply: (Seq<u8>, Seq<u8>),
)
    requires
        crate::crypto::generated_pair(sk_a, pk_a),
        crate::crypto::generated_pair(sk_b, pk_b),
        hello_from(sk_a, pk_b, key, iv, n, hello.0, hello.1, hello.2),
        reply_from(sk_b, key, iv, n, reply.0, reply.1),
    ensures
        exists|sk: Seq<u8>, pk: Seq<u8>|
            crate::crypto::rsa_key_pair(sk_b, pk) && crate::crypto::signs_anything(sk_b)
                && crate::crypto::rsa_key_pair(sk, pk_a) && #[trigger] hello_from(
                sk,
                pk,
                key,
                iv,
                n,
                hello.0,
                hello.1,
                hello.2,
            ),
        exists|sk: Seq<u8>| #[trigger] crate::crypto::rsa_key_pair(sk, pk_b) && reply_from(sk, key, iv, n, reply.0, reply.1),
{
    assert(crate::crypto::rsa_key_pair(sk_b, pk_b) && crate::crypto::signs_anything(sk_b)
        && crate::crypto::rsa_key_pair(sk_a, pk_a) && hello_from(sk_a, pk_b, key, iv, n, hello.0, hello.1, hello.2));
}

/// Whether two byte slices are equal.
pub fn bytes_eq(a: &[u8], b: &[u8]) -> (r: bool)
    ensures
        r == (a@ == b@),
{
    if a.len() != b.len() {
        return false;
    }
    let n = a.len();
    let mut i: usize = 0;
    while i < n
        invariant
            n == a@.len(),
            n == b@.len(),
            i <= n,
            forall|j: int| 0 <= j < i ==> a@[j] == b@[j],
        decreases n - i,
    {
        if a[i] != b[i] {
            return false;
        }
        i = i + 1;
    }
    assert(a@ =~= b@);
    true
}

} // verus!
