use vstd::prelude::*;
use vstd::string::*;

verus! {

/// The help text shown when the command line cannot be understood.
pub const USAGE: &'static str = "usage:
  chating setup   --out-dir <dir>
  chating listen  --port <port> --my-priv <path> --peer-pub <path>
  chating connect --ip <ip> --port <port> --my-priv <path> --peer-pub <path>";

/// Returns whether two string slices hold the same characters.
pub fn text_eq(a: &str, b: &str) -> (r: bool)
    ensures
        r == (a@ == b@),
{
    let n = a.unicode_len();
    let m = b.unicode_len();
    if n != m {
        return false;
    }
    let mut i: usize = 0;
    while i < n
        invariant
            n == a@.len(),
            m == b@.len(),
            n == m,
            i <= n,
            forall|j: int| 0 <= j < i ==> a@[j] == b@[j],
        decreases n - i,
    {
        if a.get_char(i) != b.get_char(i) {
            return false;
        }
        i = i + 1;
    }
    assert(a@ =~= b@);
    true
}

/// The three things the program can be asked to do.
#[derive(Debug, Clone, Copy, PartialEq, Eq, Structural)]
pub enum Mode {
    Connect,
    Listen,
    Setup,
}

/// The mode that a command word names, if it names one.
pub open spec fn spec_mode_of(s: Seq<char>) -> Option<Mode> {
    if s == "listen"@ {
        Some(Mode::Listen)
    } else if s == "connect"@ {
        Some(Mode::Connect)
    } else if s == "setup"@ {
        Some(Mode::Setup)
    } else {
        None
    }
}

impl Mode {
    /// Reads a command word: `listen`, `connect` or `setup`; anything else
    /// is answered with the usage text.
    pub fn parse(s: &str) -> (r: Result<Mode, String>)
        ensures
            match spec_mode_of(s@) {
                Some(m) => r == Ok::<Mode, String>(m),
                None => r matches Err(e) && e@ == USAGE@,
            },
    {
        if text_eq(s, "listen") {
            Ok(Mode::Listen)
        } else if text_eq(s, "connect") {
            Ok(Mode::Connect)
        } else if text_eq(s, "setup") {
            Ok(Mode::Setup)
        } else {
            Err(String::from_str(USAGE))
        }
    }
}

impl Default for Mode {
    /// `connect`, the mode of a connection before any argument is read.
    fn default() -> (m: Mode)
        ensures
            m == Mode::Connect,
    {
        Mode::Connect
    }
}

impl core::str::FromStr for Mode {
    type Err = String;

    fn from_str(s: &str) -> (r: Result<Mode, String>)
        ensures
            match spec_mode_of(s@) {
                Some(m) => r == Ok::<Mode, String>(m),
                None => (r matches Err(e) && e@ == USAGE@),
            },
    {
        Mode::parse(s)
    }
}

/// What a connection is configured with, as plain values.
pub struct ConnectionView {
    pub mode: Mode,
    pub ip: Seq<u8>,
    pub port: u16,
    pub my_priv: Option<Seq<char>>,
    pub peer_pub: Option<Seq<char>>,
    pub out_dir: Option<Seq<char>>,
}

/// The settings gathered from the command line.
#[derive(Debug)]
pub struct Connection {
    mode: Mode,
    ip: [u8; 4],
    port: u16,
    my_priv: Option<String>,
    peer_pub: Option<String>,
    out_dir: Option<String>,
}

/// The view of an optional string.
pub open spec fn opt_view(o: Option<String>) -> Option<Seq<char>> {
    match o {
        Some(s) => Some(s@),
        None => None,
    }
}

/// The view of an optional borrowed string.
pub open spec fn opt_ref_view(o: Option<&String>) -> Option<Seq<char>> {
    match o {
        Some(s) => Some(s@),
        None => None,
    }
}

impl View for Connection {
    type V = ConnectionView;

    closed spec fn view(&self) -> ConnectionView {
        ConnectionView {
            mode: self.mode,
            ip: self.ip@,
            port: self.port,
            my_priv: opt_view(self.my_priv),
            peer_pub: opt_view(self.peer_pub),
            out_dir: opt_view(self.out_dir),
        }
    }
}

/// The settings before any argument is read.
pub open spec fn default_connection() -> ConnectionView {
    ConnectionView {
        mode: Mode::Connect,
        ip: seq![0u8, 0u8, 0u8, 0u8],
        port: 0,
        my_priv: None,
        peer_pub: None,
        out_dir: None,
    }
}

impl Default for Connection {
    fn default() -> (c: Self)
        ensures
            c@ == default_connection(),
    {
        Connection {
            mode: Mode::Connect,
            ip: [0u8, 0u8, 0u8, 0u8],
            port: 0,
            my_priv: None,
            peer_pub: None,
            out_dir: None,
        }
    }
}

impl Connection {
    pub fn mode(&self) -> (m: &Mode)
        ensures
            *m == self@.mode,
    {
        &self.mode
    }

    pub fn set_mode(&mut self, mode: Mode)
        ensures
            final(self)@ == (ConnectionView { mode, ..old(self)@ }),
    {
        self.mode = mode;
    }

    pub fn ip(&self) -> (ip: [u8; 4])
        ensures
            ip@ == self@.ip,
    {
        self.ip
    }

    pub fn set_ip(&mut self, ip: [u8; 4])
        ensures
            final(self)@ == (ConnectionView { ip: ip@, ..old(self)@ }),
    {
        self.ip = ip;
    }

    pub fn port(&self) -> (port: u16)
        ensures
            port == self@.port,
    {
        self.port
    }

    pub fn set_port(&mut self, port: u16)
        ensures
            final(self)@ == (ConnectionView { port, ..old(self)@ }),
    {
        self.port = port;
    }

    pub fn my_priv(&self) -> (p: Option<&String>)
        ensures
            opt_ref_view(p) == self@.my_priv,
    {
        self.my_priv.as_ref()
    }

    pub fn set_my_priv(&mut self, p: String)
        ensures
            final(self)@ == (ConnectionView { my_priv: Some(p@), ..old(self)@ }),
    {
        self.my_priv = Some(p);
    }

    pub fn peer_pub(&self) -> (p: Option<&String>)
        ensures
            opt_ref_view(p) == self@.peer_pub,
    {
        self.peer_pub.as_ref()
    }

    pub fn set_peer_pub(&mut self, p: String)
        ensures
            final(self)@ == (ConnectionView { peer_pub: Some(p@), ..old(self)@ }),
    {
        self.peer_pub = Some(p);
    }

    pub fn out_dir(&self) -> (p: Option<&String>)
        ensures
            opt_ref_view(p) == self@.out_dir,
    {
        self.out_dir.as_ref()
    }

    pub fn set_out_dir(&mut self, p: String)
        ensures
            final(self)@ == (ConnectionView { out_dir: Some(p@), ..old(self)@ }),
    {
        self.out_dir = Some(p);
    }
}

} // verus!
