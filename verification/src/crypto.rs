use vstd::prelude::*;
use vstd::string::*;
use openssl::error::ErrorStack;
use openssl::hash::MessageDigest;
use openssl::pkey::PKey;
use openssl::rsa::{Padding, Rsa};
use openssl::sign::{Signer, Verifier};
use openssl::symm::Cipher;

verus! {

// ---------------------------------------------------------------------------
// Outside types
// ---------------------------------------------------------------------------

#[verifier::external_type_specification]
#[verifier::external_body]
pub struct ExErrorStack(ErrorStack);

// ---------------------------------------------------------------------------
// Names for what deterministic outside functions return
// ---------------------------------------------------------------------------

/// What `openssl::symm::encrypt` gives for AES-256 in CBC mode with PKCS#7
/// padding, under `key` and `iv`.
pub uninterp spec fn aes_256_cbc_encrypt(key: Seq<u8>, iv: Seq<u8>, data: Seq<u8>) -> Seq<u8>;

/// What `openssl::symm::decrypt` gives for AES-256 in CBC mode with PKCS#7
/// padding: the plaintext, or `None` where it fails (bad padding).
pub uninterp spec fn aes_256_cbc_decrypt(key: Seq<u8>, iv: Seq<u8>, data: Seq<u8>) -> Option<Seq<u8>>;

/// What `openssl::hash::hash` gives with SHA-256.
pub uninterp spec fn sha256_digest(data: Seq<u8>) -> Seq<u8>;

// ---------------------------------------------------------------------------
// Helpers
// ---------------------------------------------------------------------------

/// Whether `s` starts with `p`.
pub open spec fn has_prefix(s: Seq<char>, p: Seq<char>) -> bool {
    p.len() <= s.len() && s.subrange(0, p.len() as int) == p
}

/// The text of an OpenSSL error stack, as its `Display` writes it.
#[verifier::external_body]
fn error_text(e: &ErrorStack) -> String {
    e.to_string()
}

/// An error message: `prefix` followed by the OpenSSL error text.
fn failure(prefix: &str, e: &ErrorStack) -> (r: String)
    ensures
        has_prefix(r@, prefix@),
{
    let mut s = String::from_str(prefix);
    let t = error_text(e);
    s.append(t.as_str());
    assert(s@.subrange(0, prefix@.len() as int) =~= prefix@);
    s
}

/// Copies a slice into a new vector.
fn copy_bytes(b: &[u8]) -> (r: Vec<u8>)
    ensures
        r@ == b@,
{
    let mut out: Vec<u8> = Vec::new();
    let n = b.len();
    let mut i: usize = 0;
    while i < n
        invariant
            n == b@.len(),
            i <= n,
            out@ == b@.take(i as int),
        decreases n - i,
    {
        out.push(b[i]);
        i = i + 1;
        proof {
            assert(b@.take(i as int) =~= b@.take(i - 1).push(b@[i - 1]));
        }
    }
    assert(b@.take(n as int) =~= b@);
    out
}

// ---------------------------------------------------------------------------
// Random bytes and hashing
// ---------------------------------------------------------------------------

/// Calls `openssl::rand::rand_bytes`, which fills `buf` with cryptographically
/// strong random bytes. Claimed: the buffer keeps its length; what it holds
/// afterwards is left free.
#[verifier::external_body]
fn fill_random(buf: &mut Vec<u8>) -> (r: Result<(), ErrorStack>)
    requires
        old(buf)@.len() <= i32::MAX,
    ensures
        final(buf)@.len() == old(buf)@.len(),
{
    openssl::rand::rand_bytes(buf.as_mut_slice())
}

/// `n` random bytes, or the error from the random generator.
fn random_bytes(n: usize) -> (r: Result<Vec<u8>, String>)
    requires
        n <= i32::MAX,
    ensures
        r matches Ok(v) ==> v@.len() == n,
        r matches Err(e) ==> has_prefix(e@, "random generation failed: "@),
{
    let mut buf: Vec<u8> = Vec::new();
    let mut i: usize = 0;
    while i < n
        invariant
            i <= n,
            buf@.len() == i,
        decreases n - i,
    {
        buf.push(0u8);
        i = i + 1;
    }
    match fill_random(&mut buf) {
        Ok(()) => Ok(buf),
        Err(e) => Err(failure("random generation failed: ", &e)),
    }
}

/// A fresh random 32-byte nonce.
pub fn random_nonce() -> (r: Result<Vec<u8>, String>)
    ensures
        r matches Ok(v) ==> v@.len() == 32,
        r matches Err(e) ==> has_prefix(e@, "random generation failed: "@),
{
    random_bytes(32)
}

/// Calls `openssl::hash::hash` with `MessageDigest::sha256()`. Claimed: it
/// succeeds (a digest context needs only memory), and the digest is
/// `sha256_digest` of the data, 32 bytes long.
#[verifier::external_body]
fn sha256(data: &[u8]) -> (r: Result<Vec<u8>, ErrorStack>)
    ensures
        r is Ok,
        r matches Ok(h) ==> h@ == sha256_digest(data@) && h@.len() == 32,
{
    openssl::hash::hash(MessageDigest::sha256(), data).map(|h| h.to_vec())
}

/// The SHA-256 digest of `data`.
pub fn hash_sha256(data: &[u8]) -> (r: Result<Vec<u8>, String>)
    ensures
        r matches Ok(h) && h@ == sha256_digest(data@) && h@.len() == 32,
{
    match sha256(data) {
        Ok(h) => Ok(h),
        Err(e) => Err(failure("sha256 failed: ", &e)),
    }
}

// ---------------------------------------------------------------------------
// AES-256-CBC
// ---------------------------------------------------------------------------

/// The length of an AES-256 key in bytes.
pub const AES_KEY_LEN: usize = 32;

/// The length of an AES-CBC initialisation vector in bytes.
pub const AES_IV_LEN: usize = 16;

/// The largest message that the AES calls take: OpenSSL needs the message
/// and one more block to fit in a C `int`.
pub const AES_MAX_INPUT: usize = 2147483631;

/// Calls `openssl::symm::encrypt` with `Cipher::aes_256_cbc()`. Claimed: with
/// a 32-byte key and a 16-byte IV it succeeds; the ciphertext is
/// `aes_256_cbc_encrypt` of key, IV and data, and PKCS#7 padding makes it
/// the data rounded up to the next whole 16-byte block (a full block more
/// when the data fills its last block); decrypting it under the same key
/// and IV gives the data back.
#[verifier::external_body]
fn aes_cbc_encrypt(key: &[u8], iv: &[u8], data: &[u8]) -> (r: Result<Vec<u8>, ErrorStack>)
    requires
        key@.len() == AES_KEY_LEN,
        iv@.len() == AES_IV_LEN,
        data@.len() <= AES_MAX_INPUT,
    ensures
        r is Ok,
        r matches Ok(c) ==> c@ == aes_256_cbc_encrypt(key@, iv@, data@) && c@.len() == 16 * (
        data@.len() / 16 + 1),
        r matches Ok(c) ==> aes_256_cbc_decrypt(key@, iv@, c@) == Some(data@),
{
    openssl::symm::encrypt(Cipher::aes_256_cbc(), key, Some(iv), data)
}

/// Calls `openssl::symm::decrypt` with `Cipher::aes_256_cbc()`. Claimed: on
/// success the plaintext is `aes_256_cbc_decrypt` of key, IV and data; where
/// that name is `None` the call fails, and where it is a plaintext the call
/// succeeds; a ciphertext that is empty or not whole 16-byte blocks fails;
/// the plaintext is no longer than the ciphertext (CBC padding only adds
/// bytes); and a ciphertext that
/// `aes_256_cbc_encrypt` made under the same key and IV decrypts to the
/// plaintext it was made from.
#[verifier::external_body]
fn aes_cbc_decrypt(key: &[u8], iv: &[u8], data: &[u8]) -> (r: Result<Vec<u8>, ErrorStack>)
    requires
        key@.len() == AES_KEY_LEN,
        iv@.len() == AES_IV_LEN,
        data@.len() <= AES_MAX_INPUT,
    ensures
        r matches Ok(p) ==> aes_256_cbc_decrypt(key@, iv@, data@) == Some(p@),
        r matches Ok(p) ==> p@.len() <= data@.len(),
        aes_256_cbc_decrypt(key@, iv@, data@) is None ==> r is Err,
        aes_256_cbc_decrypt(key@, iv@, data@) is Some ==> r is Ok,
        data@.len() == 0 || data@.len() % 16 != 0 ==> r is Err,
        r matches Ok(q) ==> (forall|p: Seq<u8>|
            data@ == #[trigger] aes_256_cbc_encrypt(key@, iv@, p) ==> q@ == p),
        r is Ok || (forall|p: Seq<u8>| data@ != #[trigger] aes_256_cbc_encrypt(key@, iv@, p)),
{
    openssl::symm::decrypt(Cipher::aes_256_cbc(), key, Some(iv), data)
}

/// A symmetric session key: an AES-256 key and a CBC initialisation vector.
#[derive(Debug, PartialEq, Eq)]
pub struct AESKeys {
    key: Vec<u8>,
    iv: Vec<u8>,
}

impl View for AESKeys {
    type V = (Seq<u8>, Seq<u8>);

    closed spec fn view(&self) -> (Seq<u8>, Seq<u8>) {
        (self.key@, self.iv@)
    }
}

impl AESKeys {
    #[verifier::type_invariant]
    spec fn well_formed(self) -> bool {
        self.key@.len() == AES_KEY_LEN && self.iv@.len() == AES_IV_LEN
    }

    /// A fresh random key and IV.
    pub fn new() -> (r: Result<AESKeys, String>)
        ensures
            r matches Ok(k) ==> k@.0.len() == AES_KEY_LEN && k@.1.len() == AES_IV_LEN,
            r matches Err(e) ==> has_prefix(e@, "random generation failed: "@),
    {
        let key = random_bytes(AES_KEY_LEN)?;
        let iv = random_bytes(AES_IV_LEN)?;
        Ok(AESKeys { key, iv })
    }

    /// Reads a key and IV from their 48-byte form (key first).
    pub fn from_bytes(bytes: &[u8]) -> (r: Result<AESKeys, String>)
        ensures
            bytes@.len() == AES_KEY_LEN + AES_IV_LEN ==> (r matches Ok(k) && k@ == spec_split_key_bytes(bytes@)),
            bytes@.len() != AES_KEY_LEN + AES_IV_LEN ==> (r matches Err(e) && e@ == "AES key and IV must be 48 bytes total"@),
    {
        if bytes.len() != AES_KEY_LEN + AES_IV_LEN {
            return Err(String::from_str("AES key and IV must be 48 bytes total"));
        }
        let key = copy_bytes(vstd::slice::slice_subrange(bytes, 0, AES_KEY_LEN));
        let iv = copy_bytes(vstd::slice::slice_subrange(bytes, AES_KEY_LEN, bytes.len()));
        Ok(AESKeys { key, iv })
    }

    /// The 48-byte form of the key and IV: the key, then the IV.
    pub fn to_bytes(&self) -> (r: Vec<u8>)
        ensures
            r@ == self@.0 + self@.1,
            self@.0.len() == AES_KEY_LEN,
            self@.1.len() == AES_IV_LEN,
            r@.len() == AES_KEY_LEN + AES_IV_LEN,
    {
        proof {
            use_type_invariant(self);
        }
        let mut out: Vec<u8> = Vec::with_capacity(48);
        let mut i: usize = 0;
        while i < AES_KEY_LEN
            invariant
                self.key@.len() == AES_KEY_LEN,
                i <= AES_KEY_LEN,
                out@ == self.key@.take(i as int),
            decreases AES_KEY_LEN - i,
        {
            out.push(self.key[i]);
            i = i + 1;
            proof {
                assert(self.key@.take(i as int) =~= self.key@.take(i - 1).push(self.key@[i - 1]));
            }
        }
        let mut j: usize = 0;
        while j < AES_IV_LEN
            invariant
                self.key@.len() == AES_KEY_LEN,
                self.iv@.len() == AES_IV_LEN,
                j <= AES_IV_LEN,
                out@ == self.key@ + self.iv@.take(j as int),
            decreases AES_IV_LEN - j,
        {
            out.push(self.iv[j]);
            j = j + 1;
            proof {
                assert(self.iv@.take(j as int) =~= self.iv@.take(j - 1).push(self.iv@[j - 1]));
            }
        }
        assert(self.iv@.take(AES_IV_LEN as int) =~= self.iv@);
        out
    }

    /// Encrypts `plain` with AES-256-CBC under this key and IV; the
    /// ciphertext is `plain` padded up to the next whole 16-byte block.
    pub fn encrypt(&self, plain: &[u8]) -> (r: Result<Vec<u8>, String>)
        requires
            plain@.len() <= AES_MAX_INPUT,
        ensures
            r matches Ok(c) && c@ == aes_256_cbc_encrypt(self@.0, self@.1, plain@) && c@.len() == 16
                * (plain@.len() / 16 + 1) && aes_256_cbc_decrypt(self@.0, self@.1, c@) == Some(plain@),
    {
        proof {
            use_type_invariant(self);
        }
        match aes_cbc_encrypt(self.key.as_slice(), self.iv.as_slice(), plain) {
            Ok(c) => Ok(c),
            Err(e) => Err(failure("aes encrypt failed: ", &e)),
        }
    }

    /// Decrypts `cipher` with AES-256-CBC under this key and IV.
    pub fn decrypt(&self, cipher: &[u8]) -> (r: Result<Vec<u8>, String>)
        requires
            cipher@.len() <= AES_MAX_INPUT,
        ensures
            r matches Ok(p) ==> aes_256_cbc_decrypt(self@.0, self@.1, cipher@) == Some(p@),
            r matches Ok(p) ==> p@.len() <= cipher@.len(),
            aes_256_cbc_decrypt(self@.0, self@.1, cipher@) is None ==> (r matches Err(e)
                && has_prefix(e@, "aes decrypt failed: "@)),
            aes_256_cbc_decrypt(self@.0, self@.1, cipher@) is Some ==> r is Ok,
            cipher@.len() == 0 || cipher@.len() % 16 != 0 ==> r is Err,
            r matches Err(e) ==> has_prefix(e@, "aes decrypt failed: "@),
            forall|p: Seq<u8>|
                cipher@ == #[trigger] aes_256_cbc_encrypt(self@.0, self@.1, p) ==> (r matches Ok(q)
                    && q@ == p),
    {
        proof {
            use_type_invariant(self);
        }
        match aes_cbc_decrypt(self.key.as_slice(), self.iv.as_slice(), cipher) {
            Ok(p) => Ok(p),
            Err(e) => Err(failure("aes decrypt failed: ", &e)),
        }
    }
}

/// A 48-byte key form split into its key (first 32 bytes) and IV (the rest).
pub open spec fn spec_split_key_bytes(b: Seq<u8>) -> (Seq<u8>, Seq<u8>) {
    (b.subrange(0, AES_KEY_LEN as int), b.subrange(AES_KEY_LEN as int, b.len() as int))
}

/// Writing a session key out and reading it back gives the same key, and
/// reading 48 bytes in and writing them out gives the same bytes.
pub proof fn law_aes_key_bytes_roundtrip(k: (Seq<u8>, Seq<u8>), b: Seq<u8>)
    requires
        k.0.len() == AES_KEY_LEN,
        k.1.len() == AES_IV_LEN,
        b.len() == AES_KEY_LEN + AES_IV_LEN,
    ensures
        spec_split_key_bytes(k.0 + k.1) == k,
        ({
            let s = spec_split_key_bytes(b);
            s.0 + s.1 == b
        }),
{
    assert((k.0 + k.1).subrange(0, AES_KEY_LEN as int) =~= k.0);
    assert((k.0 + k.1).subrange(AES_KEY_LEN as int, (k.0 + k.1).len() as int) =~= k.1);
    let s = spec_split_key_bytes(b);
    assert(s.0 + s.1 =~= b);
}


// ---------------------------------------------------------------------------
// RSA keys
// ---------------------------------------------------------------------------

/// Whether `Rsa::private_key_from_pem_passphrase` with an empty passphrase
/// reads a private key from `pem`. Every private key read here is read that
/// way, so OpenSSL never asks for a passphrase on the terminal.
pub uninterp spec fn rsa_private_pem_ok(pem: Seq<u8>) -> bool;

/// Whether `Rsa::public_key_from_pem` reads a public key from `pem`.
pub uninterp spec fn rsa_public_pem_ok(pem: Seq<u8>) -> bool;

/// What `RsaRef::size` gives for the private key read from `pem`: the
/// length of its modulus in bytes.
pub uninterp spec fn rsa_private_size(pem: Seq<u8>) -> u32;

/// What `RsaRef::size` gives for the public key read from `pem`.
pub uninterp spec fn rsa_public_size(pem: Seq<u8>) -> u32;

/// What `RsaRef::private_decrypt` with OAEP padding gives under the private
/// key read from `pem`: the plaintext, or `None` where reading the key or
/// decrypting fails.
pub uninterp spec fn rsa_oaep_decrypt(pem: Seq<u8>, cipher: Seq<u8>) -> Option<Seq<u8>>;

/// What `Signer::sign_to_vec` gives, with SHA-256 and the private key read
/// from `pem`, after being fed `data` (PKCS#1 v1.5 padding, which is
/// deterministic); `None` where any step of it fails.
pub uninterp spec fn rsa_sha256_sign(pem: Seq<u8>, data: Seq<u8>) -> Option<Seq<u8>>;

/// What `Verifier::verify` gives, with SHA-256 and the public key read from
/// `pem` (and written out and read back), after being fed `data`; `None`
/// where any step of it fails.
pub uninterp spec fn rsa_sha256_verify(pem: Seq<u8>, data: Seq<u8>, sig: Seq<u8>) -> Option<bool>;

/// Whether the private-key text `sk` and the public-key text `pk` are the
/// two halves of one key pair that `Rsa::generate` made (and
/// `private_key_to_pem` and `public_key_to_pem` wrote).
pub uninterp spec fn rsa_key_pair(sk: Seq<u8>, pk: Seq<u8>) -> bool;

/// What a freshly generated 2048-bit key pair is: both texts read back, the
/// modulus is 256 bytes, the two texts are halves of one pair, and the
/// private key signs any data.
pub open spec fn generated_pair(sk: Seq<u8>, pk: Seq<u8>) -> bool {
    &&& rsa_private_pem_ok(sk)
    &&& rsa_public_pem_ok(pk)
    &&& rsa_private_size(sk) == 256
    &&& rsa_public_size(pk) == 256
    &&& rsa_key_pair(sk, pk)
    &&& signs_anything(sk)
}

/// Whether the private key read from `sk` signs any data.
pub open spec fn signs_anything(sk: Seq<u8>) -> bool {
    forall|d: Seq<u8>| #[trigger] rsa_sha256_sign(sk, d) is Some
}

/// The step of a key generation that failed.
pub enum KeyGenStep {
    Generate,
    PrivatePem,
    PublicPem,
}

/// The step of a signature that failed.
pub enum SignStep {
    Wrap,
    Init,
    Update,
    Sign,
}

/// The step of a signature check that failed.
pub enum VerifyStep {
    Serialize,
    Reparse,
    Wrap,
    Init,
    Update,
    Verify,
}

/// Calls `Rsa::private_key_from_pem_passphrase` on `pem` with an empty
/// passphrase and drops the key. Claimed: it succeeds exactly where
/// `rsa_private_pem_ok` says. With a passphrase given, OpenSSL never asks on
/// the terminal, so the outcome depends on the text alone; a key text
/// encrypted under a non-empty passphrase does not read.
#[verifier::external_body]
fn rsa_read_private(pem: &[u8]) -> (r: Result<(), ErrorStack>)
    requires
        pem@.len() <= i32::MAX,
    ensures
        r is Ok == rsa_private_pem_ok(pem@),
{
    Rsa::private_key_from_pem_passphrase(pem, &[]).map(|_| ())
}

/// Calls `Rsa::public_key_from_pem` on `pem` and drops the key. Claimed: it
/// succeeds exactly where `rsa_public_pem_ok` says.
#[verifier::external_body]
fn rsa_read_public(pem: &[u8]) -> (r: Result<(), ErrorStack>)
    requires
        pem@.len() <= i32::MAX,
    ensures
        r is Ok == rsa_public_pem_ok(pem@),
{
    Rsa::public_key_from_pem(pem).map(|_| ())
}

/// Calls `RsaRef::size` on the private key read from `pem`. Claimed: it
/// gives `rsa_private_size` where the text reads, and fails where it does
/// not.
#[verifier::external_body]
fn rsa_private_key_size(pem: &[u8]) -> (r: Result<u32, ErrorStack>)
    requires
        pem@.len() <= i32::MAX,
    ensures
        r is Ok == rsa_private_pem_ok(pem@),
        r matches Ok(n) ==> n == rsa_private_size(pem@),
{
    Rsa::private_key_from_pem_passphrase(pem, &[]).map(|k| k.size())
}

/// Calls `RsaRef::size` on the public key read from `pem`. Claimed: it gives
/// `rsa_public_size` where the text reads, and fails where it does not.
#[verifier::external_body]
fn rsa_public_key_size(pem: &[u8]) -> (r: Result<u32, ErrorStack>)
    requires
        pem@.len() <= i32::MAX,
    ensures
        r is Ok == rsa_public_pem_ok(pem@),
        r matches Ok(n) ==> n == rsa_public_size(pem@),
{
    Rsa::public_key_from_pem(pem).map(|k| k.size())
}

/// Calls `RsaRef::private_decrypt` with `Padding::PKCS1_OAEP` under the
/// private key read from `pem`, writing into `to`. Claimed: `to` keeps its
/// length; where `rsa_oaep_decrypt` gives a plaintext, the call returns its
/// length and `to` starts with it; where it gives `None`, the call fails.
#[verifier::external_body]
fn rsa_private_decrypt(pem: &[u8], from: &[u8], to: &mut Vec<u8>) -> (r: Result<usize, ErrorStack>)
    requires
        pem@.len() <= i32::MAX,
        from@.len() <= i32::MAX,
        rsa_private_pem_ok(pem@) ==> old(to)@.len() >= rsa_private_size(pem@),
    ensures
        final(to)@.len() == old(to)@.len(),
        match rsa_oaep_decrypt(pem@, from@) {
            Some(p) => r == Ok::<usize, ErrorStack>(p.len() as usize) && p.len() <= final(to)@.len()
                && final(to)@.take(p.len() as int) == p,
            None => r is Err,
        },
{
    let rsa = Rsa::private_key_from_pem_passphrase(pem, &[])?;
    rsa.private_decrypt(from, to.as_mut_slice(), Padding::PKCS1_OAEP)
}

/// Calls `RsaRef::public_encrypt` with `Padding::PKCS1_OAEP` under the
/// public key read from `pem`, writing into `to`. OAEP padding is random,
/// so the ciphertext is not named. Claimed: `to` keeps its length; the call
/// fails where the text does not read, and where the message is longer than
/// the modulus less 42 bytes (the OAEP overhead with SHA-1); on success it
/// returns the modulus length, and the private half of the same generated
/// pair decrypts the first that many bytes of `to` to `from`.
#[verifier::external_body]
fn rsa_public_encrypt(pem: &[u8], from: &[u8], to: &mut Vec<u8>) -> (r: Result<usize, ErrorStack>)
    requires
        pem@.len() <= i32::MAX,
        from@.len() <= i32::MAX,
        rsa_public_pem_ok(pem@) ==> old(to)@.len() >= rsa_public_size(pem@),
    ensures
        final(to)@.len() == old(to)@.len(),
        r is Ok ==> rsa_public_pem_ok(pem@),
        from@.len() + 42 > rsa_public_size(pem@) ==> r is Err,
        r matches Ok(n) ==> n == rsa_public_size(pem@),
        r matches Ok(n) ==> (forall|sk: Seq<u8>| #[trigger] rsa_key_pair(sk, pem@)
            ==> rsa_oaep_decrypt(sk, final(to)@.take(n as int)) == Some(from@)),
{
    let rsa = Rsa::public_key_from_pem(pem)?;
    rsa.public_encrypt(from, to.as_mut_slice(), Padding::PKCS1_OAEP)
}

/// Calls `Rsa::generate(bits)` (public exponent 65537), then
/// `private_key_to_pem` and `public_key_to_pem` on the new key. The key is
/// random and is not named. Claimed of a success: both texts read back, the
/// modulus is `bits` rounded up to whole bytes, the texts are the two halves
/// of one pair, and the private key signs any data with SHA-256 (a key of
/// at least 1024 bits has room for the PKCS#1 v1.5 encoding of a SHA-256
/// digest). Sizes from 1024 to 16384 bits (OpenSSL's largest) are taken.
#[verifier::external_body]
fn rsa_generate_pems(bits: u32) -> (r: Result<(Vec<u8>, Vec<u8>), (KeyGenStep, ErrorStack)>)
    requires
        1024 <= bits <= 16384,
    ensures
        r matches Ok((sk, pk)) ==> rsa_private_pem_ok(sk@) && rsa_public_pem_ok(pk@) && sk@.len()
            <= i32::MAX && pk@.len() <= i32::MAX && rsa_private_size(sk@) == (bits + 7) / 8
            && rsa_public_size(pk@) == (bits + 7) / 8 && rsa_key_pair(sk@, pk@) && signs_anything(sk@),
{
    let rsa = Rsa::generate(bits).map_err(|e| (KeyGenStep::Generate, e))?;
    let sk = rsa.private_key_to_pem().map_err(|e| (KeyGenStep::PrivatePem, e))?;
    let pk = rsa.public_key_to_pem().map_err(|e| (KeyGenStep::PublicPem, e))?;
    Ok((sk, pk))
}

/// Signs `data`: reads the private key from `pem`, wraps it with `PKey::from_rsa`, makes a `Signer` with
/// `MessageDigest::sha256()`, feeds it `data` with `update`, and calls
/// `sign_to_vec`. Claimed: the outcome is `rsa_sha256_sign` of the text and
/// the data, and a signature is as long as the modulus.
#[verifier::external_body]
fn rsa_sign(pem: &[u8], data: &[u8]) -> (r: Result<Vec<u8>, (SignStep, ErrorStack)>)
    requires
        pem@.len() <= i32::MAX,
    ensures
        match rsa_sha256_sign(pem@, data@) {
            Some(s) => r matches Ok(v) && v@ == s,
            None => r is Err,
        },
        r matches Ok(v) ==> v@.len() == rsa_private_size(pem@),
{
    let rsa = Rsa::private_key_from_pem_passphrase(pem, &[]).map_err(|e| (SignStep::Wrap, e))?;
    let pkey = PKey::from_rsa(rsa).map_err(|e| (SignStep::Wrap, e))?;
    let mut s = Signer::new(MessageDigest::sha256(), &pkey).map_err(|e| (SignStep::Init, e))?;
    s.update(data).map_err(|e| (SignStep::Update, e))?;
    s.sign_to_vec().map_err(|e| (SignStep::Sign, e))
}

/// Checks a signature: reads the public key from `pem`, writes it out with
/// `public_key_to_pem` and reads that back, wraps it with `PKey::from_rsa`,
/// makes a `Verifier` with `MessageDigest::sha256()`, feeds it `data` with
/// `update`, and calls `verify`. Claimed: the outcome is
/// `rsa_sha256_verify` of the text, the data and the signature; and a
/// signature that the private half of the same generated pair made, over
/// any data, is checked without failing and accepted exactly when the
/// SHA-256 digest of that data equals the digest of `data` (PKCS#1 v1.5
/// compares the encoded digests).
#[verifier::external_body]
fn rsa_verify(pem: &[u8], data: &[u8], sig: &[u8]) -> (r: Result<bool, (VerifyStep, ErrorStack)>)
    requires
        pem@.len() <= i32::MAX,
    ensures
        match rsa_sha256_verify(pem@, data@, sig@) {
            Some(b) => r matches Ok(x) && x == b,
            None => r is Err,
        },
        r is Ok || !(exists|sk: Seq<u8>, d: Seq<u8>| #[trigger] rsa_key_pair(sk, pem@)
            && #[trigger] rsa_sha256_sign(sk, d) == Some(sig@)),
        r matches Ok(b) ==> (forall|sk: Seq<u8>, d: Seq<u8>| #[trigger] rsa_key_pair(sk, pem@)
            && #[trigger] rsa_sha256_sign(sk, d) == Some(sig@) ==> b == (sha256_digest(data@)
            == sha256_digest(d))),
{
    let rsa = Rsa::public_key_from_pem(pem).map_err(|e| (VerifyStep::Serialize, e))?;
    let again = rsa.public_key_to_pem().map_err(|e| (VerifyStep::Serialize, e))?;
    let rsa = Rsa::public_key_from_pem(&again).map_err(|e| (VerifyStep::Reparse, e))?;
    let pkey = PKey::from_rsa(rsa).map_err(|e| (VerifyStep::Wrap, e))?;
    let mut v = Verifier::new(MessageDigest::sha256(), &pkey).map_err(|e| (VerifyStep::Init, e))?;
    v.update(data).map_err(|e| (VerifyStep::Update, e))?;
    v.verify(sig).map_err(|e| (VerifyStep::Verify, e))
}

/// A zeroed buffer of `n` bytes.
fn zeroed(n: u32) -> (r: Vec<u8>)
    ensures
        r@.len() == n,
{
    let mut buf: Vec<u8> = Vec::new();
    let mut i: u32 = 0;
    while i < n
        invariant
            i <= n,
            buf@.len() == i,
        decreases n - i,
    {
        buf.push(0u8);
        i = i + 1;
    }
    buf
}

/// A private RSA key, held as the PEM text (a PKCS#1 `RSA PRIVATE KEY`) it
/// was read from; OpenSSL reads it again at each use.
pub struct PrivKey {
    pem: Vec<u8>,
}

/// A public RSA key, held as the PEM text (a SubjectPublicKeyInfo
/// `PUBLIC KEY`) it was read from; OpenSSL reads it again at each use.
pub struct PubKey {
    pem: Vec<u8>,
}

impl View for PrivKey {
    type V = Seq<u8>;

    closed spec fn view(&self) -> Seq<u8> {
        self.pem@
    }
}

impl View for PubKey {
    type V = Seq<u8>;

    closed spec fn view(&self) -> Seq<u8> {
        self.pem@
    }
}

/// Whether `e` is the message of a failed signature: one of its steps'
/// prefixes followed by OpenSSL's error text.
pub open spec fn sign_failure_msg(e: Seq<char>) -> bool {
    has_prefix(e, "pkey wrap failed: "@) || has_prefix(e, "signer init failed: "@) || has_prefix(
        e,
        "signer update failed: "@,
    ) || has_prefix(e, "signing failed: "@)
}

/// Whether `e` is the message of a failed signature check.
pub open spec fn verify_failure_msg(e: Seq<char>) -> bool {
    has_prefix(e, "pubkey serialize failed: "@) || has_prefix(e, "pubkey reparse failed: "@)
        || has_prefix(e, "pkey wrap failed: "@) || has_prefix(e, "verifier init failed: "@)
        || has_prefix(e, "verifier update failed: "@) || has_prefix(e, "verify failed: "@)
}

/// The error message of a failed signature.
fn sign_failure(step: SignStep, e: &ErrorStack) -> (r: String)
    ensures
        sign_failure_msg(r@),
{
    match step {
        SignStep::Wrap => failure("pkey wrap failed: ", e),
        SignStep::Init => failure("signer init failed: ", e),
        SignStep::Update => failure("signer update failed: ", e),
        SignStep::Sign => failure("signing failed: ", e),
    }
}

/// The error message of a failed signature check.
fn verify_failure(step: VerifyStep, e: &ErrorStack) -> (r: String)
    ensures
        verify_failure_msg(r@),
{
    match step {
        VerifyStep::Serialize => failure("pubkey serialize failed: ", e),
        VerifyStep::Reparse => failure("pubkey reparse failed: ", e),
        VerifyStep::Wrap => failure("pkey wrap failed: ", e),
        VerifyStep::Init => failure("verifier init failed: ", e),
        VerifyStep::Update => failure("verifier update failed: ", e),
        VerifyStep::Verify => failure("verify failed: ", e),
    }
}

impl PrivKey {
    #[verifier::type_invariant]
    spec fn well_formed(self) -> bool {
        self.pem@.len() <= i32::MAX && rsa_private_pem_ok(self.pem@)
    }

    /// Reads a private key from PEM text (a PKCS#1 `RSA PRIVATE KEY`).
    pub fn load(pem: &[u8]) -> (r: Result<PrivKey, String>)
        requires
            pem@.len() <= i32::MAX,
        ensures
            r is Ok == rsa_private_pem_ok(pem@),
            r matches Ok(k) ==> k@ == pem@,
            r matches Err(e) ==> has_prefix(e@, "failed to parse private key: "@),
    {
        match rsa_read_private(pem) {
            Ok(()) => Ok(PrivKey { pem: copy_bytes(pem) }),
            Err(e) => Err(failure("failed to parse private key: ", &e)),
        }
    }

    /// The key's modulus length in bytes.
    fn size(&self) -> (r: u32)
        ensures
            r == rsa_private_size(self@),
    {
        proof {
            use_type_invariant(self);
        }
        match rsa_private_key_size(self.pem.as_slice()) {
            Ok(n) => n,
            Err(_) => 0,
        }
    }

    /// Decrypts an RSA-OAEP ciphertext.
    pub fn decrypt(&self, cipher: &[u8]) -> (r: Result<Vec<u8>, String>)
        requires
            cipher@.len() <= i32::MAX,
        ensures
            match rsa_oaep_decrypt(self@, cipher@) {
                Some(p) => r matches Ok(v) && v@ == p,
                None => r matches Err(e) && has_prefix(e@, "rsa decrypt failed: "@),
            },
    {
        proof {
            use_type_invariant(self);
        }
        let n = self.size();
        let mut plain = zeroed(n);
        match rsa_private_decrypt(self.pem.as_slice(), cipher, &mut plain) {
            Ok(len) => {
                plain.truncate(len);
                Ok(plain)
            },
            Err(e) => Err(failure("rsa decrypt failed: ", &e)),
        }
    }

    /// Signs `data` with SHA-256 and PKCS#1 v1.5 padding; a signature is as
    /// long as the modulus.
    pub fn sign(&self, data: &[u8]) -> (r: Result<Vec<u8>, String>)
        ensures
            match rsa_sha256_sign(self@, data@) {
                Some(s) => r matches Ok(v) && v@ == s && v@.len() == rsa_private_size(self@),
                None => r matches Err(e) && sign_failure_msg(e@),
            },
    {
        proof {
            use_type_invariant(self);
        }
        match rsa_sign(self.pem.as_slice(), data) {
            Ok(v) => Ok(v),
            Err((step, e)) => Err(sign_failure(step, &e)),
        }
    }
}

impl PubKey {
    #[verifier::type_invariant]
    spec fn well_formed(self) -> bool {
        self.pem@.len() <= i32::MAX && rsa_public_pem_ok(self.pem@)
    }

    /// Reads a public key from PEM text (a SubjectPublicKeyInfo `PUBLIC KEY`).
    pub fn load(pem: &[u8]) -> (r: Result<PubKey, String>)
        requires
            pem@.len() <= i32::MAX,
        ensures
            r is Ok == rsa_public_pem_ok(pem@),
            r matches Ok(k) ==> k@ == pem@,
            r matches Err(e) ==> has_prefix(e@, "failed to parse public key: "@),
    {
        match rsa_read_public(pem) {
            Ok(()) => Ok(PubKey { pem: copy_bytes(pem) }),
            Err(e) => Err(failure("failed to parse public key: ", &e)),
        }
    }

    /// The key's modulus length in bytes.
    fn size(&self) -> (r: u32)
        ensures
            r == rsa_public_size(self@),
    {
        proof {
            use_type_invariant(self);
        }
        match rsa_public_key_size(self.pem.as_slice()) {
            Ok(n) => n,
            Err(_) => 0,
        }
    }

    /// Encrypts `plain` with RSA-OAEP. The ciphertext is random and as long
    /// as the modulus; the private half of the same generated pair decrypts
    /// it to `plain`. A message longer than the modulus less 42 bytes fails.
    pub fn encrypt(&self, plain: &[u8]) -> (r: Result<Vec<u8>, String>)
        requires
            plain@.len() <= i32::MAX,
        ensures
            r matches Ok(c) ==> c@.len() == rsa_public_size(self@),
            r matches Ok(c) ==> (forall|sk: Seq<u8>| #[trigger] rsa_key_pair(sk, self@)
                ==> rsa_oaep_decrypt(sk, c@) == Some(plain@)),
            plain@.len() + 42 > rsa_public_size(self@) ==> r is Err,
            r matches Err(e) ==> has_prefix(e@, "rsa encrypt failed: "@),
    {
        proof {
            use_type_invariant(self);
        }
        let n = self.size();
        let mut cipher = zeroed(n);
        match rsa_public_encrypt(self.pem.as_slice(), plain, &mut cipher) {
            Ok(len) => {
                cipher.truncate(len);
                Ok(cipher)
            },
            Err(e) => Err(failure("rsa encrypt failed: ", &e)),
        }
    }

    /// Checks a SHA-256 PKCS#1 v1.5 signature over `data`. The key is first
    /// written out as PEM text and read back, as a fresh copy. A signature
    /// that the matching private key made is accepted for data with the same
    /// digest as what it signed, and refused for any other data.
    pub fn verify(&self, data: &[u8], sig: &[u8]) -> (r: Result<bool, String>)
        ensures
            match rsa_sha256_verify(self@, data@, sig@) {
                Some(b) => r == Ok::<bool, String>(b),
                None => r matches Err(e) && verify_failure_msg(e@),
            },
            (exists|sk: Seq<u8>| #[trigger] rsa_key_pair(sk, self@) && rsa_sha256_sign(sk, data@)
                == Some(sig@)) ==> r == Ok::<bool, String>(true),
            forall|sk: Seq<u8>, d: Seq<u8>| #[trigger] rsa_key_pair(sk, self@) && #[trigger] rsa_sha256_sign(sk, d)
                == Some(sig@) ==> r == Ok::<bool, String>(sha256_digest(data@) == sha256_digest(d)),
    {
        proof {
            use_type_invariant(self);
        }
        match rsa_verify(self.pem.as_slice(), data, sig) {
            Ok(b) => Ok(b),
            Err((step, e)) => Err(verify_failure(step, &e)),
        }
    }
}

/// The files that a new key pair is written to, and what goes in them.
pub struct GeneratedKeys {
    pub priv_file: String,
    pub pub_file: String,
    pub priv_pem: Vec<u8>,
    pub pub_pem: Vec<u8>,
}

/// The size of generated keys in bits.
pub const RSA_BITS: u32 = 2048;

/// Makes a fresh 2048-bit key pair and its PEM texts, to be written to
/// `<name>_priv.pem` and `<name>_pub.pem`.
pub fn generate_keypair(name: &str) -> (r: Result<GeneratedKeys, String>)
    ensures
        r matches Ok(g) ==> g.priv_file@ == name@ + "_priv.pem"@ && g.pub_file@ == name@
            + "_pub.pem"@ && generated_pair(g.priv_pem@, g.pub_pem@) && g.priv_pem@.len() <= i32::MAX
            && g.pub_pem@.len() <= i32::MAX,
        r matches Err(e) ==> has_prefix(e@, "failed to generate rsa: "@) || has_prefix(
            e@,
            "failed to serialize private key: "@,
        ) || has_prefix(e@, "failed to serialize public key: "@),
{
    let (priv_pem, pub_pem) = match rsa_generate_pems(RSA_BITS) {
        Ok(p) => p,
        Err((KeyGenStep::Generate, e)) => return Err(failure("failed to generate rsa: ", &e)),
        Err((KeyGenStep::PrivatePem, e)) => return Err(failure("failed to serialize private key: ", &e)),
        Err((KeyGenStep::PublicPem, e)) => return Err(failure("failed to serialize public key: ", &e)),
    };
    let mut priv_file = String::from_str(name);
    priv_file.append("_priv.pem");
    let mut pub_file = String::from_str(name);
    pub_file.append("_pub.pem");
    Ok(GeneratedKeys { priv_file, pub_file, priv_pem, pub_pem })
}

} // verus!
