# chating

A two-party chat over TCP in which both sides authenticate each other with RSA
keys exchanged out of band, agree on an AES-256-CBC session key, and sign every
message.

- `src/` is the library, verified with Verus:
  - `types.rs`: the settings (`Connection`, `Mode`) and the usage text;
  - `cli.rs`: the command line, with port and IPv4 parsing;
  - `frame.rs`: length-prefixed frames;
  - `crypto.rs`: RSA keys, AES session keys, SHA-256 and randomness, over
    OpenSSL;
  - `handshake.rs`: the key exchange with mutual authentication;
  - `chat.rs`: what to run, what a typed line asks for, and sealing and
    opening messages.
- `app/main.rs` is the program: arguments, key files, sockets, the receiving
  thread and the terminal.
- `tests/` exercises the library with the real OpenSSL.

Usage:

    chating setup   --out-dir <dir>
    chating listen  --port <port> --my-priv <path> --peer-pub <path>
    chating connect --ip <ip> --port <port> --my-priv <path> --peer-pub <path>
