use vstd::prelude::*;
use vstd::string::*;
use crate::crypto::{has_prefix, AESKeys, PrivKey, PubKey, AES_MAX_INPUT};
use crate::types::{text_eq, Connection, Mode};

verus! {

// ---------------------------------------------------------------------------
// What to run
// ---------------------------------------------------------------------------

/// What a parsed command line asks for.
pub enum RunPlan {
    /// Write a new key pair into this directory.
    Setup { out_dir: String },
    /// Chat with a peer, connecting to it or waiting for it, with this own
    /// private key; the peer's key is asked for after the own key is read
    /// (`Connection::peer_pub_path`).
    Peer { connector: bool, my_priv: String },
}

impl Connection {
    /// What to run: `setup` needs an output directory; `connect` and
    /// `listen` need the own private key.
    pub fn run_plan(&self) -> (r: Result<RunPlan, String>)
        ensures
            self@.mode == Mode::Setup ==> match self@.out_dir {
                Some(d) => (r matches Ok(RunPlan::Setup { out_dir }) && out_dir@ == d),
                None => (r matches Err(e) && e@ == "setup: missing --out-dir"@),
            },
            self@.mode != Mode::Setup ==> match self@.my_priv {
                Some(a) => (r matches Ok(RunPlan::Peer { connector, my_priv })
                    && connector == (self@.mode == Mode::Connect) && my_priv@ == a),
                None => (r matches Err(e) && e@ == "missing --my-priv"@),
            },
    {
        match self.mode() {
            Mode::Setup => match self.out_dir() {
                Some(d) => Ok(RunPlan::Setup { out_dir: d.clone() }),
                None => Err(String::from_str("setup: missing --out-dir")),
            },
            Mode::Connect | Mode::Listen => {
                let connector = match self.mode() {
                    Mode::Connect => true,
                    _ => false,
                };
                match self.my_priv() {
                    Some(p) => Ok(RunPlan::Peer { connector, my_priv: p.clone() }),
                    None => Err(String::from_str("missing --my-priv")),
                }
            },
        }
    }

    /// The peer's public key file, asked for once the own key is read.
    pub fn peer_pub_path(&self) -> (r: Result<String, String>)
        ensures
            match self@.peer_pub {
                Some(b) => (r matches Ok(p) && p@ == b),
                None => (r matches Err(e) && e@ == "missing --peer-pub"@),
            },
    {
        match self.peer_pub() {
            Some(p) => Ok(p.clone()),
            None => Err(String::from_str("missing --peer-pub")),
        }
    }
}

// ---------------------------------------------------------------------------
// Reading the user's lines
// ---------------------------------------------------------------------------

/// Whether `c` is white space in the sense of `char::is_whitespace`: the
/// Unicode `White_Space` property.
pub open spec fn is_white_space(c: char) -> bool {
    ||| ('\u{9}' <= c && c <= '\u{d}')
    ||| c == ' '
    ||| c == '\u{85}'
    ||| c == '\u{a0}'
    ||| c == '\u{1680}'
    ||| ('\u{2000}' <= c && c <= '\u{200a}')
    ||| c == '\u{2028}'
    ||| c == '\u{2029}'
    ||| c == '\u{202f}'
    ||| c == '\u{205f}'
    ||| c == '\u{3000}'
}

/// `s` without its leading white space.
pub open spec fn trim_front(s: Seq<char>) -> Seq<char>
    decreases s.len(),
{
    if s.len() > 0 && is_white_space(s[0]) {
        trim_front(s.drop_first())
    } else {
        s
    }
}

/// `s` without its trailing white space.
pub open spec fn trim_back(s: Seq<char>) -> Seq<char>
    decreases s.len(),
{
    if s.len() > 0 && is_white_space(s.last()) {
        trim_back(s.drop_last())
    } else {
        s
    }
}

/// What `str::trim` gives: `s` without leading and trailing white space.
pub open spec fn spec_trim(s: Seq<char>) -> Seq<char> {
    trim_back(trim_front(s))
}

fn white_space(c: char) -> (r: bool)
    ensures
        r == is_white_space(c),
{
    ('\u{9}' <= c && c <= '\u{d}') || c == ' ' || c == '\u{85}' || c == '\u{a0}' || c == '\u{1680}'
        || ('\u{2000}' <= c && c <= '\u{200a}') || c == '\u{2028}' || c == '\u{2029}' || c
        == '\u{202f}' || c == '\u{205f}' || c == '\u{3000}'
}

proof fn lemma_trim_front_skip(s: Seq<char>, i: int)
    requires
        0 <= i <= s.len(),
        forall|j: int| 0 <= j < i ==> is_white_space(#[trigger] s[j]),
    ensures
        trim_front(s) == trim_front(s.skip(i)),
    decreases i,
{
    if i > 0 {
        assert(s.drop_first().skip(i - 1) =~= s.skip(i));
        lemma_trim_front_skip(s.drop_first(), i - 1);
    } else {
        assert(s.skip(0) =~= s);
    }
}

proof fn lemma_trim_back_take(s: Seq<char>, j: int)
    requires
        0 <= j <= s.len(),
        forall|k: int| j <= k < s.len() ==> is_white_space(#[trigger] s[k]),
    ensures
        trim_back(s) == trim_back(s.take(j)),
    decreases s.len() - j,
{
    if j < s.len() {
        assert(s.drop_last().take(j) =~= s.take(j));
        lemma_trim_back_take(s.drop_last(), j);
    } else {
        assert(s.take(j) =~= s);
    }
}

/// The bounds of `s` without leading and trailing white space.
fn trim_bounds(s: &str) -> (r: (usize, usize))
    ensures
        r.0 <= r.1 <= s@.len(),
        s@.subrange(r.0 as int, r.1 as int) == spec_trim(s@),
{
    let n = s.unicode_len();
    let mut i: usize = 0;
    while i < n && white_space(s.get_char(i))
        invariant
            n == s@.len(),
            i <= n,
            forall|j: int| 0 <= j < i ==> is_white_space(#[trigger] s@[j]),
        decreases n - i,
    {
        i = i + 1;
    }
    proof {
        lemma_trim_front_skip(s@, i as int);
        if i < n {
            assert(trim_front(s@.skip(i as int)) == s@.skip(i as int));
        } else {
            assert(s@.skip(i as int) =~= Seq::<char>::empty());
        }
    }
    let ghost front = s@.skip(i as int);
    let mut j: usize = n;
    while j > i && white_space(s.get_char(j - 1))
        invariant
            n == s@.len(),
            i <= j <= n,
            front == s@.skip(i as int),
            forall|k: int| j - i <= k < front.len() ==> is_white_space(#[trigger] front[k]),
        decreases j,
    {
        j = j - 1;
        assert(front[j - i] == s@[j as int]);
    }
    proof {
        lemma_trim_back_take(front, j - i);
        let t = front.take(j - i);
        if j > i {
            assert(t.last() == s@[j - 1]);
        }
        assert(t =~= s@.subrange(i as int, j as int));
    }
    (i, j)
}

/// What a line typed by the user asks for.
pub enum InputAction {
    /// Leave the chat: the line is `quit`, give or take white space.
    Quit,
    /// Nothing to send: the line is only white space.
    Skip,
    /// Send the line, as it was typed.
    Send,
}

/// What a typed line asks for.
pub open spec fn spec_input_action(line: Seq<char>) -> InputAction {
    let t = spec_trim(line);
    if t == "quit"@ {
        InputAction::Quit
    } else if t.len() == 0 {
        InputAction::Skip
    } else {
        InputAction::Send
    }
}

/// Tells what a typed line asks for: `quit` (around white space) leaves,
/// a blank line is skipped, anything else is sent.
pub fn classify_input(line: &str) -> (r: InputAction)
    ensures
        r == spec_input_action(line@),
{
    let (a, b) = trim_bounds(line);
    let t = line.substring_char(a, b);
    if text_eq(t, "quit") {
        InputAction::Quit
    } else if a == b {
        InputAction::Skip
    } else {
        InputAction::Send
    }
}

/// Whether every character of `s` is white space.
pub open spec fn all_white_space(s: Seq<char>) -> bool {
    forall|k: int| 0 <= k < s.len() ==> is_white_space(#[trigger] s[k])
}

/// Where the leading white space of `s` ends.
proof fn lemma_trim_front_shape(s: Seq<char>) -> (i: int)
    ensures
        0 <= i <= s.len(),
        trim_front(s) == s.skip(i),
        forall|k: int| 0 <= k < i ==> is_white_space(#[trigger] s[k]),
        i < s.len() ==> !is_white_space(s[i]),
    decreases s.len(),
{
    if s.len() > 0 && is_white_space(s[0]) {
        let r = lemma_trim_front_shape(s.drop_first());
        assert(s.drop_first().skip(r) =~= s.skip(r + 1));
        assert forall|k: int| 0 <= k < r + 1 implies is_white_space(#[trigger] s[k]) by {
            if k > 0 {
                assert(s[k] == s.drop_first()[k - 1]);
            }
        }
        r + 1
    } else {
        assert(s.skip(0) =~= s);
        0
    }
}

/// Where the trailing white space of `s` starts.
proof fn lemma_trim_back_shape(s: Seq<char>) -> (j: int)
    ensures
        0 <= j <= s.len(),
        trim_back(s) == s.take(j),
        forall|k: int| j <= k < s.len() ==> is_white_space(#[trigger] s[k]),
        j > 0 ==> !is_white_space(s[j - 1]),
    decreases s.len(),
{
    if s.len() > 0 && is_white_space(s.last()) {
        let r = lemma_trim_back_shape(s.drop_last());
        assert(s.drop_last().take(r) =~= s.take(r));
        assert forall|k: int| r <= k < s.len() implies is_white_space(#[trigger] s[k]) by {
            if k < s.len() - 1 {
                assert(s[k] == s.drop_last()[k]);
            }
        }
        r
    } else {
        assert(s.take(s.len() as int) =~= s);
        s.len() as int
    }
}

/// The trimmed text of `s` is `s[i..j]`: white space before and after it,
/// and, where it is not empty, a character other than white space at
/// each end.
proof fn lemma_trim_shape(s: Seq<char>) -> (r: (int, int))
    ensures
        0 <= r.0 <= r.1 <= s.len(),
        spec_trim(s) == s.subrange(r.0, r.1),
        forall|k: int| 0 <= k < r.0 ==> is_white_space(#[trigger] s[k]),
        forall|k: int| r.1 <= k < s.len() ==> is_white_space(#[trigger] s[k]),
        r.0 < s.len() ==> !is_white_space(s[r.0]),
        r.0 < r.1 ==> !is_white_space(s[r.1 - 1]),
{
    let i = lemma_trim_front_shape(s);
    let front = s.skip(i);
    let j = lemma_trim_back_shape(front);
    assert(front.take(j) =~= s.subrange(i, i + j));
    assert forall|k: int| i + j <= k < s.len() implies is_white_space(#[trigger] s[k]) by {
        assert(s[k] == front[k - i]);
    }
    if j > 0 {
        assert(s[i + j - 1] == front[j - 1]);
    }
    (i, i + j)
}

/// A typed line asks to leave exactly when it is `quit` with nothing but
/// white space around it; it is skipped exactly when it is only white
/// space; every other line (such as `quit now`) is sent.
pub proof fn law_input_action(line: Seq<char>)
    ensures
        spec_input_action(line) is Quit <==> exists|a: Seq<char>, b: Seq<char>|
            all_white_space(a) && all_white_space(b) && line == a + "quit"@ + b,
        spec_input_action(line) is Skip <==> all_white_space(line),
        spec_input_action(line) is Send <==> !all_white_space(line) && !(exists|a: Seq<char>, b: Seq<char>|
            all_white_space(a) && all_white_space(b) && line == a + "quit"@ + b),
{
    reveal_strlit("quit");
    let q = "quit"@;
    assert(q.len() == 4 && q[0] == 'q' && q[3] == 't');
    let (i, j) = lemma_trim_shape(line);
    let t = spec_trim(line);
    let is_quit = exists|a: Seq<char>, b: Seq<char>|
        all_white_space(a) && all_white_space(b) && line == a + q + b;
    if t == q {
        let a = line.take(i);
        let b = line.skip(j);
        assert(line =~= a + q + b);
        assert(all_white_space(a));
        assert forall|k: int| 0 <= k < b.len() implies is_white_space(#[trigger] b[k]) by {
            assert(b[k] == line[j + k]);
        }
        assert(is_quit);
        assert(!all_white_space(line)) by {
            assert(line[i] == 'q');
        }
    } else {
        if is_quit {
            let (a, b) = choose|a: Seq<char>, b: Seq<char>|
                all_white_space(a) && all_white_space(b) && line == a + q + b;
            let n = a.len() as int;
            assert(line[n] == 'q');
            assert(line[n + 3] == 't');
            if i < n {
                assert(line[i] == a[i]);
            }
            if i > n {
                assert(is_white_space(line[n]));
            }
            assert(i == n);
            if j < n + 4 {
                assert(is_white_space(line[n + 3]));
            }
            if j > n + 4 {
                assert(line[j - 1] == b[j - 1 - n - 4]);
            }
            assert(j == n + 4);
            assert(t =~= q);
        }
        if t.len() == 0 {
            assert(i == j);
            assert forall|k: int| 0 <= k < line.len() implies is_white_space(#[trigger] line[k]) by {
                if k >= i {
                    assert(k >= j);
                }
            }
        } else {
            assert(!is_white_space(line[i]));
        }
    }
}

// ---------------------------------------------------------------------------
// Messages
// ---------------------------------------------------------------------------

/// Seals a message: encrypts it under the session key and signs the
/// ciphertext (SHA-256, PKCS#1 v1.5). The two go out as two frames.
pub fn seal_message(aes: &AESKeys, my_priv: &PrivKey, plain: &[u8]) -> (r: Result<(Vec<u8>, Vec<u8>), String>)
    requires
        plain@.len() <= AES_MAX_INPUT,
    ensures
        ({
            let c = crate::crypto::aes_256_cbc_encrypt(aes@.0, aes@.1, plain@);
            match crate::crypto::rsa_sha256_sign(my_priv@, c) {
                Some(s) => r matches Ok((c2, s2)) && c2@ == c && s2@ == s,
                None => r matches Err(e) && crate::crypto::sign_failure_msg(e@),
            }
        }),
{
    let cipher = aes.encrypt(plain)?;
    let sig = my_priv.sign(cipher.as_slice())?;
    Ok((cipher, sig))
}

/// What became of a received message.
pub enum Incoming {
    /// The signature checked out and the message decrypted to this.
    Accepted(Vec<u8>),
    /// The peer's key does not accept the signature; the message is dropped.
    Rejected,
    /// The signature could not be checked.
    VerifyFailed(String),
    /// The signature checked out but the message did not decrypt.
    DecryptFailed(String),
}

/// Opens a received message: checks the peer's signature over the
/// ciphertext, then decrypts it under the session key. A message that the
/// peer's matching private key sealed under this session key is accepted;
/// a signature that key made over other data (with another digest) is
/// rejected.
pub fn open_message(aes: &AESKeys, peer_pub: &PubKey, cipher: &[u8], sig: &[u8]) -> (r: Incoming)
    requires
        cipher@.len() <= AES_MAX_INPUT,
    ensures
        match crate::crypto::rsa_sha256_verify(peer_pub@, cipher@, sig@) {
            None => r matches Incoming::VerifyFailed(e) && crate::crypto::verify_failure_msg(e@),
            Some(false) => r is Rejected,
            Some(true) => match crate::crypto::aes_256_cbc_decrypt(aes@.0, aes@.1, cipher@) {
                Some(p) => r matches Incoming::Accepted(v) && v@ == p,
                None => r matches Incoming::DecryptFailed(e) && has_prefix(e@, "aes decrypt failed: "@),
            },
        },
        forall|sk: Seq<u8>, m: Seq<u8>|
            #![trigger crate::crypto::rsa_key_pair(sk, peer_pub@), crate::crypto::aes_256_cbc_encrypt(aes@.0, aes@.1, m)]
            crate::crypto::rsa_key_pair(sk, peer_pub@) && cipher@
                == crate::crypto::aes_256_cbc_encrypt(aes@.0, aes@.1, m)
                && crate::crypto::rsa_sha256_sign(sk, cipher@) == Some(sig@) ==> (r matches Incoming::Accepted(p) && p@ == m),
        forall|sk: Seq<u8>, c0: Seq<u8>|
            #[trigger] crate::crypto::rsa_key_pair(sk, peer_pub@) && #[trigger] crate::crypto::rsa_sha256_sign(sk, c0)
                == Some(sig@) && crate::crypto::sha256_digest(cipher@) != crate::crypto::sha256_digest(c0)
                ==> r is Rejected,
{
    match peer_pub.verify(cipher, sig) {
        Ok(true) => match aes.decrypt(cipher) {
            Ok(p) => Incoming::Accepted(p),
            Err(e) => Incoming::DecryptFailed(e),
        },
        Ok(false) => Incoming::Rejected,
        Err(e) => Incoming::VerifyFailed(e),
    }
}

} // verus!
