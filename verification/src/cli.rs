use vstd::prelude::*;
use vstd::string::*;
use crate::types::{text_eq, Connection, ConnectionView, Mode, USAGE};
use crate::frame::{decimal, digit_char};

verus! {

/// Whether a character is one of the ASCII digits `0` to `9`.
pub open spec fn is_digit(c: char) -> bool {
    '0' <= c && c <= '9'
}

/// Whether every character of `s` is an ASCII digit.
pub open spec fn all_digits(s: Seq<char>) -> bool {
    forall|i: int| 0 <= i < s.len() ==> is_digit(#[trigger] s[i])
}

/// The number that a string of decimal digits writes.
pub open spec fn digits_value(s: Seq<char>) -> nat
    decreases s.len(),
{
    if s.len() == 0 {
        0
    } else {
        digits_value(s.drop_last()) * 10 + ((s.last() as nat) - ('0' as nat)) as nat
    }
}

/// What `u16`'s `from_str` gives: an optional `+` followed by at least one
/// decimal digit, and a value that fits in 16 bits.
pub open spec fn spec_parse_u16(s: Seq<char>) -> Option<u16> {
    let body = if s.len() > 0 && s[0] == '+' { s.drop_first() } else { s };
    if body.len() > 0 && all_digits(body) && digits_value(body) <= 65535 {
        Some(digits_value(body) as u16)
    } else {
        None
    }
}

proof fn lemma_digits_value_step(s: Seq<char>, i: int)
    requires
        0 <= i < s.len(),
    ensures
        digits_value(s.take(i + 1)) == digits_value(s.take(i)) * 10 + ((s[i] as nat) - ('0' as nat)) as nat,
{
    assert(s.take(i + 1).drop_last() =~= s.take(i));
}

proof fn lemma_digits_value_grows(s: Seq<char>, i: int, j: int)
    requires
        0 <= i <= j <= s.len(),
        all_digits(s),
    ensures
        digits_value(s.take(i)) <= digits_value(s.take(j)),
    decreases j - i,
{
    if i < j {
        lemma_digits_value_grows(s, i, j - 1);
        lemma_digits_value_step(s, j - 1);
        assert(is_digit(s[j - 1]));
    }
}

/// Reads a port number as `u16`'s `from_str` does.
pub fn parse_port(s: &str) -> (r: Option<u16>)
    ensures
        r == spec_parse_u16(s@),
{
    let n = s.unicode_len();
    let ghost body = if s@.len() > 0 && s@[0] == '+' { s@.drop_first() } else { s@ };
    let mut start: usize = 0;
    if n > 0 && s.get_char(0) == '+' {
        start = 1;
    }
    if start == n {
        return None;
    }
    proof {
        assert(body =~= s@.skip(start as int));
    }
    let mut i: usize = start;
    let mut v: u32 = 0;
    while i < n
        invariant
            n == s@.len(),
            start <= i <= n,
            start < n,
            body =~= s@.skip(start as int),
            body == (if s@.len() > 0 && s@[0] == '+' { s@.drop_first() } else { s@ }),
            body.len() > 0,
            all_digits(body.take(i - start)),
            v == digits_value(body.take(i - start)),
            v <= 65535,
        decreases n - i,
    {
        let c = s.get_char(i);
        if c < '0' || c > '9' {
            proof {
                assert(body[i - start] == c);
                assert(!is_digit(body[i - start]));
            }
            return None;
        }
        let d: u32 = (c as u32) - ('0' as u32);
        proof {
            lemma_digits_value_step(body, i - start);
            assert(body.take(i - start + 1) =~= body.take(i - start).push(c));
            assert(all_digits(body.take(i - start + 1)));
        }
        v = v * 10 + d;
        i = i + 1;
        if v > 65535 {
            proof {
                if all_digits(body) {
                    lemma_digits_value_grows(body, i - start, body.len() as int);
                    assert(body.take(body.len() as int) =~= body);
                }
            }
            return None;
        }
    }
    proof {
        assert(body.take(i - start) =~= body);
    }
    Some(v as u16)
}

/// The pieces of `s` between dots, in order (`a..b` gives three pieces, the
/// middle one empty).
pub open spec fn dot_fields(s: Seq<char>) -> Seq<Seq<char>>
    decreases s.len(),
{
    if s.len() == 0 {
        seq![Seq::<char>::empty()]
    } else {
        let f = dot_fields(s.drop_last());
        if s.last() == '.' {
            f.push(Seq::<char>::empty())
        } else {
            f.update(f.len() - 1, f.last().push(s.last()))
        }
    }
}

/// The value of one dotted-decimal octet: one to three digits, no leading
/// zero unless the octet is `0` itself, and at most 255.
pub open spec fn octet_value(f: Seq<char>) -> Option<u8> {
    if 1 <= f.len() <= 3 && all_digits(f) && (f.len() == 1 || f[0] != '0') && digits_value(f)
        <= 255 {
        Some(digits_value(f) as u8)
    } else {
        None
    }
}

/// What `Ipv4Addr`'s `from_str` gives: exactly four octets in dotted-decimal
/// notation, with neither octal (leading zero) nor hexadecimal forms.
pub open spec fn spec_parse_ipv4(s: Seq<char>) -> Option<Seq<u8>> {
    let f = dot_fields(s);
    if f.len() == 4 && octet_value(f[0]) is Some && octet_value(f[1]) is Some && octet_value(f[2])
        is Some && octet_value(f[3]) is Some {
        Some(
            seq![
                octet_value(f[0]).unwrap(),
                octet_value(f[1]).unwrap(),
                octet_value(f[2]).unwrap(),
                octet_value(f[3]).unwrap(),
            ],
        )
    } else {
        None
    }
}

proof fn lemma_dot_fields_nonempty(s: Seq<char>)
    ensures
        dot_fields(s).len() >= 1,
    decreases s.len(),
{
    if s.len() > 0 {
        lemma_dot_fields_nonempty(s.drop_last());
    }
}

/// Reading more characters keeps the pieces already closed by a dot, and
/// only lengthens the piece still open.
proof fn lemma_dot_fields_extend(s: Seq<char>, i: int, j: int)
    requires
        0 <= i <= j <= s.len(),
    ensures
        dot_fields(s.take(j)).len() >= dot_fields(s.take(i)).len(),
        forall|k: int|
            0 <= k < dot_fields(s.take(i)).len() - 1 ==> #[trigger] dot_fields(s.take(j))[k]
                == dot_fields(s.take(i))[k],
        dot_fields(s.take(j))[dot_fields(s.take(i)).len() - 1].len() >= dot_fields(
            s.take(i),
        ).last().len(),
        dot_fields(s.take(j))[dot_fields(s.take(i)).len() - 1].take(
            dot_fields(s.take(i)).last().len() as int,
        ) == dot_fields(s.take(i)).last(),
    decreases j - i,
{
    lemma_dot_fields_nonempty(s.take(i));
    if i == j {
        let a = dot_fields(s.take(i));
        assert(a[a.len() - 1].take(a.last().len() as int) =~= a.last());
    } else {
        lemma_dot_fields_extend(s, i, j - 1);
        lemma_dot_fields_nonempty(s.take(j - 1));
        assert(s.take(j).drop_last() =~= s.take(j - 1));
        let a = dot_fields(s.take(i));
        let b = dot_fields(s.take(j - 1));
        let c = dot_fields(s.take(j));
        let k0 = a.len() - 1;
        if s[j - 1] == '.' {
            assert(c =~= b.push(Seq::<char>::empty()));
        } else {
            assert(c =~= b.update(b.len() - 1, b.last().push(s[j - 1])));
            if b.len() - 1 == k0 {
                assert(c[k0].take(a.last().len() as int) =~= b[k0].take(a.last().len() as int));
            }
        }
    }
}

/// A digit sequence of more than three characters, or with a non-digit,
/// has no octet value.
proof fn lemma_octet_prefix_bad(f: Seq<char>, p: Seq<char>)
    requires
        f.len() >= p.len(),
        f.take(p.len() as int) == p,
        p.len() > 3 || !all_digits(p),
    ensures
        octet_value(f) is None,
{
    if !all_digits(p) {
        let k = choose|k: int| 0 <= k < p.len() && !is_digit(#[trigger] p[k]);
        assert(f[k] == p[k]);
    }
}

/// Reads an IPv4 address as `Ipv4Addr`'s `from_str` does, giving its four
/// octets.
pub fn parse_ipv4(s: &str) -> (r: Option<[u8; 4]>)
    ensures
        match r {
            Some(a) => spec_parse_ipv4(s@) == Some(a@),
            None => spec_parse_ipv4(s@) is None,
        },
{
    let n = s.unicode_len();
    let mut vals: [u8; 4] = [0u8, 0u8, 0u8, 0u8];
    let mut done: usize = 0;
    let mut cur_len: usize = 0;
    let mut cur_val: u32 = 0;
    let mut first_zero: bool = false;
    proof {
        assert(s@.take(0) =~= Seq::<char>::empty());
        assert(dot_fields(s@.take(0))[0] =~= Seq::<char>::empty());
    }
    let mut i: usize = 0;
    while i < n
        invariant
            n == s@.len(),
            i <= n,
            done <= 3,
            dot_fields(s@.take(i as int)).len() == done + 1,
            forall|k: int|
                0 <= k < done ==> octet_value(#[trigger] dot_fields(s@.take(i as int))[k]) == Some(
                    vals@[k],
                ),
            dot_fields(s@.take(i as int))[done as int].len() == cur_len,
            cur_len <= 3,
            all_digits(dot_fields(s@.take(i as int))[done as int]),
            digits_value(dot_fields(s@.take(i as int))[done as int]) == cur_val,
            cur_val <= 999,
            cur_len == 0 ==> cur_val == 0,
            cur_len == 1 ==> cur_val <= 9,
            cur_len == 2 ==> cur_val <= 99,
            cur_len > 0 ==> (first_zero <==> dot_fields(s@.take(i as int))[done as int][0] == '0'),
        decreases n - i,
    {
        let c = s.get_char(i);
        let ghost pre = s@.take(i as int);
        let ghost post = s@.take(i + 1);
        proof {
            assert(post.drop_last() =~= pre);
            assert(post.last() == c);
            lemma_dot_fields_nonempty(pre);
        }
        if c == '.' {
            let ok = 1 <= cur_len && (cur_len == 1 || !first_zero) && cur_val <= 255;
            if !ok || done == 3 {
                proof {
                    lemma_dot_fields_extend(s@, i as int, n as int);
                    lemma_dot_fields_extend(s@, i + 1, n as int);
                    assert(s@.take(n as int) =~= s@);
                    if done == 3 {
                        assert(dot_fields(post).len() == 5);
                    } else {
                        let f = dot_fields(s@);
                        assert(f[done as int] == dot_fields(pre)[done as int]);
                    }
                }
                return None;
            }
            vals[done] = cur_val as u8;
            proof {
                let fp = dot_fields(pre);
                assert(dot_fields(post) =~= fp.push(Seq::<char>::empty()));
                assert(octet_value(fp[done as int]) == Some(cur_val as u8));
            }
            done = done + 1;
            cur_len = 0;
            cur_val = 0;
            first_zero = false;
        } else if '0' <= c && c <= '9' {
            if cur_len == 3 {
                proof {
                    let fp = dot_fields(pre);
                    let g = fp.last().push(c);
                    assert(dot_fields(post) =~= fp.update(fp.len() - 1, g));
                    lemma_dot_fields_extend(s@, i + 1, n as int);
                    assert(s@.take(n as int) =~= s@);
                    lemma_octet_prefix_bad(dot_fields(s@)[done as int], g);
                }
                return None;
            }
            proof {
                let fp = dot_fields(pre);
                let g = fp.last().push(c);
                assert(dot_fields(post) =~= fp.update(fp.len() - 1, g));
                assert(g.drop_last() =~= fp.last());
                assert(all_digits(g));
            }
            if cur_len == 0 {
                first_zero = c == '0';
            }
            cur_val = cur_val * 10 + ((c as u32) - ('0' as u32));
            cur_len = cur_len + 1;
        } else {
            proof {
                let fp = dot_fields(pre);
                let g = fp.last().push(c);
                assert(dot_fields(post) =~= fp.update(fp.len() - 1, g));
                assert(!is_digit(g[g.len() - 1]));
                lemma_dot_fields_extend(s@, i + 1, n as int);
                assert(s@.take(n as int) =~= s@);
                lemma_octet_prefix_bad(dot_fields(s@)[done as int], g);
            }
            return None;
        }
        i = i + 1;
    }
    proof {
        assert(s@.take(n as int) =~= s@);
    }
    if done != 3 {
        return None;
    }
    if !(1 <= cur_len && (cur_len == 1 || !first_zero) && cur_val <= 255) {
        return None;
    }
    vals[3] = cur_val as u8;
    proof {
        let f = dot_fields(s@);
        assert(octet_value(f[0]) == Some(vals@[0]));
        assert(octet_value(f[1]) == Some(vals@[1]));
        assert(octet_value(f[2]) == Some(vals@[2]));
        assert(vals@ =~= seq![vals@[0], vals@[1], vals@[2], vals@[3]]);
    }
    Some(vals)
}

/// The characters of each argument.
pub open spec fn arg_views(args: Seq<String>) -> Seq<Seq<char>> {
    args.map_values(|a: String| a@)
}

/// The message for an option given last, with no value after it.
pub open spec fn requires_value_msg(name: Seq<char>) -> Seq<char> {
    name + " requires a value"@
}

/// The message for an argument that the mode does not accept.
pub open spec fn unknown_arg_msg(arg: Seq<char>) -> Seq<char> {
    "unknown argument "@ + arg + "\n"@ + USAGE@
}

/// Reads the options `args[i..]` of a `kind` command line from left to right
/// into `c`: the settings after the last option read, and the first error,
/// if any. `--port`, `--my-priv` and `--peer-pub` belong to `connect` and
/// `listen`, `--ip` to `connect` alone, `--out-dir` to `setup` alone; each
/// takes the next argument as its value, and a later one overrides an
/// earlier one.
pub open spec fn spec_read_options(
    kind: Mode,
    c: ConnectionView,
    args: Seq<Seq<char>>,
    i: nat,
) -> (ConnectionView, Option<Seq<char>>)
    decreases args.len() - i,
{
    if i >= args.len() {
        (c, None)
    } else {
        let a = args[i as int];
        let has_value = i + 1 < args.len();
        let v = args[i + 1 as int];
        if kind != Mode::Setup && a == "--port"@ {
            if !has_value {
                (c, Some(requires_value_msg(a)))
            } else {
                match spec_parse_u16(v) {
                    None => (c, Some("--port must be a valid number"@)),
                    Some(p) => spec_read_options(kind, ConnectionView { port: p, ..c }, args, i + 2),
                }
            }
        } else if kind == Mode::Connect && a == "--ip"@ {
            if !has_value {
                (c, Some(requires_value_msg(a)))
            } else {
                match spec_parse_ipv4(v) {
                    None => (c, Some("--ip must be a valid ip"@)),
                    Some(ip) => spec_read_options(kind, ConnectionView { ip, ..c }, args, i + 2),
                }
            }
        } else if kind != Mode::Setup && a == "--my-priv"@ {
            if !has_value {
                (c, Some(requires_value_msg(a)))
            } else {
                spec_read_options(kind, ConnectionView { my_priv: Some(v), ..c }, args, i + 2)
            }
        } else if kind != Mode::Setup && a == "--peer-pub"@ {
            if !has_value {
                (c, Some(requires_value_msg(a)))
            } else {
                spec_read_options(kind, ConnectionView { peer_pub: Some(v), ..c }, args, i + 2)
            }
        } else if kind == Mode::Setup && a == "--out-dir"@ {
            if !has_value {
                (c, Some(requires_value_msg(a)))
            } else {
                spec_read_options(kind, ConnectionView { out_dir: Some(v), ..c }, args, i + 2)
            }
        } else {
            (c, Some(unknown_arg_msg(a)))
        }
    }
}

/// The value that follows the option at `i`, or the message that it is
/// missing.
pub fn take_value<'a>(args: &'a [String], i: usize, name: &str) -> (r: Result<&'a String, String>)
    requires
        i < usize::MAX,
    ensures
        i + 1 < args@.len() ==> r == Ok::<&String, String>(&args@[i + 1]),
        i + 1 >= args@.len() ==> (r matches Err(e) && e@ == requires_value_msg(name@)),
{
    if i + 1 < args.len() {
        Ok(&args[i + 1])
    } else {
        let mut e = String::from_str(name);
        e.append(" requires a value");
        Err(e)
    }
}

fn unknown_argument(a: &String) -> (e: String)
    ensures
        e@ == unknown_arg_msg(a@),
{
    let mut e = String::from_str("unknown argument ");
    e.append(a.as_str());
    e.append("\n");
    e.append(USAGE);
    e
}

/// Whether an option word `opt` stands at an even position of `args`
/// (where the options of a command line that reads without error stand).
pub open spec fn option_given(args: Seq<Seq<char>>, opt: Seq<char>) -> bool {
    exists|j: int| 0 <= j < args.len() && j % 2 == 0 && #[trigger] args[j] == opt
}

/// Reads the options of a `kind` command line into `c`, stopping at the
/// first error; on success, tells whether `--ip` was among them.
fn read_options(c: &mut Connection, args: &[String], kind: Mode) -> (r: Result<bool, String>)
    ensures
        ({
            let (c1, e) = spec_read_options(kind, old(c)@, arg_views(args@), 0);
            &&& final(c)@ == c1
            &&& match e {
                Some(m) => r matches Err(x) && x@ == m,
                None => r == Ok::<bool, String>(option_given(arg_views(args@), "--ip"@)),
            }
        }),
{
    let ghost av = arg_views(args@);
    let ghost goal = spec_read_options(kind, old(c)@, av, 0);
    let n = args.len();
    let mut i: usize = 0;
    let mut ip_seen = false;
    while i < n
        invariant
            n == args@.len(),
            av == arg_views(args@),
            av.len() == n,
            i <= n,
            i % 2 == 0,
            goal == spec_read_options(kind, old(c)@, av, 0),
            goal == spec_read_options(kind, c@, av, i as nat),
            ip_seen == (exists|j: int| 0 <= j < i && j % 2 == 0 && #[trigger] av[j] == "--ip"@),
        decreases n - i,
    {
        let a = &args[i];
        proof {
            assert(av[i as int] == a@);
            if i + 1 < n {
                assert(av[i + 1] == args@[i + 1]@);
            }
        }
        let is_ip = text_eq(a.as_str(), "--ip");
        let ghost seen_before = ip_seen;
        ip_seen = ip_seen || is_ip;
        proof {
            assert forall|j: int| 0 <= j < i + 2 && j % 2 == 0 && #[trigger] av[j] == "--ip"@
                implies (0 <= j < i && j % 2 == 0 && av[j] == "--ip"@) || j == i by {}
            if is_ip {
                assert(0 <= i < i + 2 && i % 2 == 0 && av[i as int] == "--ip"@);
            }
        }
        if kind != Mode::Setup && text_eq(a.as_str(), "--port") {
            let v = take_value(args, i, "--port")?;
            match parse_port(v.as_str()) {
                Some(p) => c.set_port(p),
                None => return Err(String::from_str("--port must be a valid number")),
            }
        } else if kind == Mode::Connect && text_eq(a.as_str(), "--ip") {
            let v = take_value(args, i, "--ip")?;
            match parse_ipv4(v.as_str()) {
                Some(ip) => c.set_ip(ip),
                None => return Err(String::from_str("--ip must be a valid ip")),
            }
        } else if kind != Mode::Setup && text_eq(a.as_str(), "--my-priv") {
            let v = take_value(args, i, "--my-priv")?;
            c.set_my_priv(v.clone());
        } else if kind != Mode::Setup && text_eq(a.as_str(), "--peer-pub") {
            let v = take_value(args, i, "--peer-pub")?;
            c.set_peer_pub(v.clone());
        } else if kind == Mode::Setup && text_eq(a.as_str(), "--out-dir") {
            let v = take_value(args, i, "--out-dir")?;
            c.set_out_dir(v.clone());
        } else {
            return Err(unknown_argument(a));
        }
        i = i + 2;
    }
    proof {
        if ip_seen {
            let j = choose|j: int| 0 <= j < i && j % 2 == 0 && #[trigger] av[j] == "--ip"@;
            assert(0 <= j < av.len() && j % 2 == 0 && av[j] == "--ip"@);
        }
        if option_given(av, "--ip"@) {
            let j = choose|j: int| 0 <= j < av.len() && j % 2 == 0 && #[trigger] av[j] == "--ip"@;
            assert(0 <= j < i && j % 2 == 0 && av[j] == "--ip"@);
        }
    }
    Ok(ip_seen)
}

/// The outcome of a `connect` command line: its options read into `c`, then
/// a check that an address, a port, a private key and a peer key were all
/// given.
pub open spec fn spec_parse_connect(c: ConnectionView, args: Seq<Seq<char>>) -> (
    ConnectionView,
    Result<(), Seq<char>>,
) {
    let (c1, e) = spec_read_options(Mode::Connect, c, args, 0);
    match e {
        Some(m) => (c1, Err(m)),
        None => if !option_given(args, "--ip"@) || c1.port == 0 || c1.my_priv is None
            || c1.peer_pub is None {
            (c1, Err("connect requires --ip, --port, --my-priv, --peer-pub\n"@ + USAGE@))
        } else {
            (ConnectionView { mode: Mode::Connect, ..c1 }, Ok(()))
        },
    }
}

/// The outcome of a `listen` command line: its options read into `c`, a
/// check that a port and both keys were given, and then the mode set to
/// `listen` on the unspecified address `0.0.0.0`.
pub open spec fn spec_parse_listen(c: ConnectionView, args: Seq<Seq<char>>) -> (
    ConnectionView,
    Result<(), Seq<char>>,
) {
    let (c1, e) = spec_read_options(Mode::Listen, c, args, 0);
    match e {
        Some(m) => (c1, Err(m)),
        None => if c1.port == 0 || c1.my_priv is None || c1.peer_pub is None {
            (c1, Err("listen requires --port, --my-priv, --peer-pub\n"@ + USAGE@))
        } else {
            (ConnectionView { mode: Mode::Listen, ip: seq![0u8, 0u8, 0u8, 0u8], ..c1 }, Ok(()))
        },
    }
}

/// The outcome of a `setup` command line: its options read into `c`, then a
/// check that an output directory was given.
pub open spec fn spec_parse_setup(c: ConnectionView, args: Seq<Seq<char>>) -> (
    ConnectionView,
    Result<(), Seq<char>>,
) {
    let (c1, e) = spec_read_options(Mode::Setup, c, args, 0);
    match e {
        Some(m) => (c1, Err(m)),
        None => if c1.out_dir is None {
            (c1, Err("setup requires --out-dir\n"@ + USAGE@))
        } else {
            (ConnectionView { mode: Mode::Setup, ..c1 }, Ok(()))
        },
    }
}

/// The outcome of a whole command line (without the program name): the
/// first argument names the mode, the rest are that mode's options.
pub open spec fn spec_parse_cli(c: ConnectionView, args: Seq<Seq<char>>) -> (
    ConnectionView,
    Result<(), Seq<char>>,
) {
    if args.len() == 0 {
        (c, Err(USAGE@))
    } else {
        match crate::types::spec_mode_of(args[0]) {
            None => (c, Err(USAGE@)),
            Some(Mode::Connect) => spec_parse_connect(c, args.skip(1)),
            Some(Mode::Listen) => spec_parse_listen(c, args.skip(1)),
            Some(Mode::Setup) => spec_parse_setup(c, args.skip(1)),
        }
    }
}

/// Whether a result and its message agree with a specified outcome.
pub open spec fn same_outcome(r: Result<(), String>, o: Result<(), Seq<char>>) -> bool {
    match o {
        Ok(()) => r is Ok,
        Err(m) => r matches Err(e) && e@ == m,
    }
}

fn parse_connect(c: &mut Connection, args: &[String]) -> (r: Result<(), String>)
    ensures
        final(c)@ == spec_parse_connect(old(c)@, arg_views(args@)).0,
        same_outcome(r, spec_parse_connect(old(c)@, arg_views(args@)).1),
{
    let ip_given = read_options(c, args, Mode::Connect)?;
    if !ip_given || c.port() == 0 || c.my_priv().is_none() || c.peer_pub().is_none() {
        let mut e = String::from_str("connect requires --ip, --port, --my-priv, --peer-pub\n");
        e.append(USAGE);
        return Err(e);
    }
    c.set_mode(Mode::Connect);
    Ok(())
}

fn parse_listen(c: &mut Connection, args: &[String]) -> (r: Result<(), String>)
    ensures
        final(c)@ == spec_parse_listen(old(c)@, arg_views(args@)).0,
        same_outcome(r, spec_parse_listen(old(c)@, arg_views(args@)).1),
{
    read_options(c, args, Mode::Listen)?;
    if c.port() == 0 || c.my_priv().is_none() || c.peer_pub().is_none() {
        let mut e = String::from_str("listen requires --port, --my-priv, --peer-pub\n");
        e.append(USAGE);
        return Err(e);
    }
    c.set_mode(Mode::Listen);
    let unspecified: [u8; 4] = [0u8, 0u8, 0u8, 0u8];
    c.set_ip(unspecified);
    proof {
        assert(unspecified@ =~= seq![0u8, 0u8, 0u8, 0u8]);
    }
    Ok(())
}

fn parse_setup(c: &mut Connection, args: &[String]) -> (r: Result<(), String>)
    ensures
        final(c)@ == spec_parse_setup(old(c)@, arg_views(args@)).0,
        same_outcome(r, spec_parse_setup(old(c)@, arg_views(args@)).1),
{
    read_options(c, args, Mode::Setup)?;
    if c.out_dir().is_none() {
        let mut e = String::from_str("setup requires --out-dir\n");
        e.append(USAGE);
        return Err(e);
    }
    c.set_mode(Mode::Setup);
    Ok(())
}

/// Reads a command line (without the program name) into `chat`. The
/// settings read before an error stay in `chat`; a caller gives up on any
/// error.
pub fn parse_cli(chat: &mut Connection, args: &[String]) -> (r: Result<(), String>)
    ensures
        final(chat)@ == spec_parse_cli(old(chat)@, arg_views(args@)).0,
        same_outcome(r, spec_parse_cli(old(chat)@, arg_views(args@)).1),
{
    if args.len() == 0 {
        return Err(String::from_str(USAGE));
    }
    let mode = Mode::parse(args[0].as_str())?;
    let rest = vstd::slice::slice_subrange(args, 1, args.len());
    proof {
        assert(arg_views(rest@) =~= arg_views(args@).skip(1));
        assert(arg_views(args@)[0] == args@[0]@);
    }
    match mode {
        Mode::Connect => parse_connect(chat, rest),
        Mode::Listen => parse_listen(chat, rest),
        Mode::Setup => parse_setup(chat, rest),
    }
}

/// A command line that parses is complete: `setup` has an output
/// directory; `connect` and `listen` have a non-zero port and both keys;
/// `connect` was given an address; and `listen` is bound to the unspecified
/// address `0.0.0.0`.
pub proof fn law_parsed_command_is_complete(c: ConnectionView, args: Seq<Seq<char>>)
    ensures
        spec_parse_cli(c, args).1 is Ok ==> ({
            let c2 = spec_parse_cli(c, args).0;
            &&& args.len() > 0
            &&& crate::types::spec_mode_of(args[0]) == Some(c2.mode)
            &&& c2.mode == Mode::Setup ==> c2.out_dir is Some
            &&& c2.mode != Mode::Setup ==> c2.port != 0 && c2.my_priv is Some && c2.peer_pub is Some
            &&& c2.mode == Mode::Listen ==> c2.ip == seq![0u8, 0u8, 0u8, 0u8]
            &&& c2.mode == Mode::Connect ==> option_given(args.skip(1), "--ip"@)
        }),
{
}

/// Whether the option at `j` of a `kind` command line reads without error:
/// it is one of the mode's options, a value follows it, and a port or an
/// address value parses.
pub open spec fn option_ok(kind: Mode, args: Seq<Seq<char>>, j: int) -> bool {
    let a = args[j];
    let v = args[j + 1];
    &&& j + 1 < args.len()
    &&& {
        ||| kind != Mode::Setup && a == "--port"@ && spec_parse_u16(v) is Some
        ||| kind == Mode::Connect && a == "--ip"@ && spec_parse_ipv4(v) is Some
        ||| kind != Mode::Setup && a == "--my-priv"@
        ||| kind != Mode::Setup && a == "--peer-pub"@
        ||| kind == Mode::Setup && a == "--out-dir"@
    }
}

proof fn lemma_option_words_differ()
    ensures
        "--port"@ != "--ip"@,
        "--port"@ != "--my-priv"@,
        "--port"@ != "--peer-pub"@,
        "--port"@ != "--out-dir"@,
        "--ip"@ != "--my-priv"@,
        "--ip"@ != "--peer-pub"@,
        "--ip"@ != "--out-dir"@,
        "--my-priv"@ != "--peer-pub"@,
        "--my-priv"@ != "--out-dir"@,
        "--peer-pub"@ != "--out-dir"@,
{
    reveal_strlit("--port");
    reveal_strlit("--ip");
    reveal_strlit("--my-priv");
    reveal_strlit("--peer-pub");
    reveal_strlit("--out-dir");
    assert("--port"@.len() == 6);
    assert("--ip"@.len() == 4);
    assert("--my-priv"@.len() == 9);
    assert("--peer-pub"@.len() == 10);
    assert("--out-dir"@.len() == 9);
    assert("--my-priv"@[2] != "--out-dir"@[2]);
}

proof fn lemma_read_options_ok(kind: Mode, c: ConnectionView, args: Seq<Seq<char>>, i: nat)
    ensures
        spec_read_options(kind, c, args, i).1 is None <==> (forall|j: int|
            i <= j < args.len() && (j - i) % 2 == 0 ==> #[trigger] option_ok(kind, args, j)),
    decreases args.len() - i,
{
    lemma_option_words_differ();
    if i < args.len() {
        let a = args[i as int];
        let v = args[i + 1 as int];
        let has_value = i + 1 < args.len();
        let next = if kind != Mode::Setup && a == "--port"@ && has_value && spec_parse_u16(v) is Some {
            Some(ConnectionView { port: spec_parse_u16(v).unwrap(), ..c })
        } else if kind == Mode::Connect && a == "--ip"@ && has_value && spec_parse_ipv4(v) is Some {
            Some(ConnectionView { ip: spec_parse_ipv4(v).unwrap(), ..c })
        } else if kind != Mode::Setup && a == "--my-priv"@ && has_value {
            Some(ConnectionView { my_priv: Some(v), ..c })
        } else if kind != Mode::Setup && a == "--peer-pub"@ && has_value {
            Some(ConnectionView { peer_pub: Some(v), ..c })
        } else if kind == Mode::Setup && a == "--out-dir"@ && has_value {
            Some(ConnectionView { out_dir: Some(v), ..c })
        } else {
            None
        };
        match next {
            Some(c2) => {
                lemma_read_options_ok(kind, c2, args, i + 2);
                assert(spec_read_options(kind, c, args, i) == spec_read_options(kind, c2, args, i + 2));
                assert(option_ok(kind, args, i as int));
                if spec_read_options(kind, c, args, i).1 is None {
                    assert forall|j: int| i <= j < args.len() && (j - i) % 2 == 0 implies #[trigger] option_ok(kind, args, j) by {
                        if j != i {
                            assert(i + 2 <= j && (j - (i + 2)) % 2 == 0);
                        }
                    }
                } else {
                    let j = choose|j: int| i + 2 <= j < args.len() && (j - (i + 2)) % 2 == 0 && !#[trigger] option_ok(kind, args, j);
                    assert(i <= j < args.len() && (j - i) % 2 == 0);
                }
            },
            None => {
                assert(spec_read_options(kind, c, args, i).1 is Some);
                assert(!option_ok(kind, args, i as int));
                assert(i <= i < args.len() && (i - i) % 2 == 0);
            },
        }
    }
}

/// A `connect` command line is accepted exactly when every option reads
/// without error (each one the mode accepts, each followed by a value, each
/// port and address value parsing), an address was given, and the settings
/// read end with a non-zero port and both keys; it then sets the mode to
/// `connect`.
pub proof fn law_connect_accepts(c: ConnectionView, args: Seq<Seq<char>>)
    ensures
        ({
            let c1 = spec_read_options(Mode::Connect, c, args, 0).0;
            spec_parse_connect(c, args).1 is Ok <==> (forall|j: int| 0 <= j < args.len() && j % 2 == 0
                ==> #[trigger] option_ok(Mode::Connect, args, j)) && option_given(args, "--ip"@)
                && c1.port != 0 && c1.my_priv is Some && c1.peer_pub is Some
        }),
        spec_parse_connect(c, args).1 is Ok ==> spec_parse_connect(c, args).0 == (ConnectionView {
            mode: Mode::Connect,
            ..spec_read_options(Mode::Connect, c, args, 0).0
        }),
{
    lemma_read_options_ok(Mode::Connect, c, args, 0);
    assert forall|j: int| 0 <= j < args.len() && j % 2 == 0 implies #[trigger] option_ok(Mode::Connect, args, j) == option_ok(Mode::Connect, args, j) && (j - 0) % 2 == 0 by {}
}

/// Reading options never changes the mode; `connect` and `listen` options
/// never change the output directory; `listen` and `setup` options never
/// change the address; `setup` options change nothing but the output
/// directory.
proof fn lemma_read_options_frame(kind: Mode, c: ConnectionView, args: Seq<Seq<char>>, i: nat)
    ensures
        ({
            let c1 = spec_read_options(kind, c, args, i).0;
            &&& c1.mode == c.mode
            &&& kind != Mode::Setup ==> c1.out_dir == c.out_dir
            &&& kind != Mode::Connect ==> c1.ip == c.ip
            &&& kind == Mode::Setup ==> c1.port == c.port && c1.my_priv == c.my_priv && c1.peer_pub
                == c.peer_pub
        }),
    decreases args.len() - i,
{
    lemma_option_words_differ();
    if i < args.len() {
        let a = args[i as int];
        let v = args[i + 1 as int];
        let has_value = i + 1 < args.len();
        let next = if kind != Mode::Setup && a == "--port"@ && has_value && spec_parse_u16(v) is Some {
            Some(ConnectionView { port: spec_parse_u16(v).unwrap(), ..c })
        } else if kind == Mode::Connect && a == "--ip"@ && has_value && spec_parse_ipv4(v) is Some {
            Some(ConnectionView { ip: spec_parse_ipv4(v).unwrap(), ..c })
        } else if kind != Mode::Setup && a == "--my-priv"@ && has_value {
            Some(ConnectionView { my_priv: Some(v), ..c })
        } else if kind != Mode::Setup && a == "--peer-pub"@ && has_value {
            Some(ConnectionView { peer_pub: Some(v), ..c })
        } else if kind == Mode::Setup && a == "--out-dir"@ && has_value {
            Some(ConnectionView { out_dir: Some(v), ..c })
        } else {
            None
        };
        match next {
            Some(c2) => {
                lemma_read_options_frame(kind, c2, args, i + 2);
                assert(spec_read_options(kind, c, args, i) == spec_read_options(kind, c2, args, i + 2));
            },
            None => {
                assert(spec_read_options(kind, c, args, i).0 == c);
            },
        }
    }
}

/// A command line that fails keeps the mode; a failed `connect` keeps the
/// output directory, a failed `listen` keeps the address and the output
/// directory, and a failed `setup` keeps everything but the output
/// directory. Options read before the error stay applied.
pub proof fn law_failed_parse_keeps(c: ConnectionView, args: Seq<Seq<char>>)
    ensures
        spec_parse_connect(c, args).1 is Err ==> ({
            let c2 = spec_parse_connect(c, args).0;
            c2.mode == c.mode && c2.out_dir == c.out_dir
        }),
        spec_parse_listen(c, args).1 is Err ==> ({
            let c2 = spec_parse_listen(c, args).0;
            c2.mode == c.mode && c2.ip == c.ip && c2.out_dir == c.out_dir
        }),
        spec_parse_setup(c, args).1 is Err ==> ({
            let c2 = spec_parse_setup(c, args).0;
            c2.mode == c.mode && c2.ip == c.ip && c2.port == c.port && c2.my_priv == c.my_priv
                && c2.peer_pub == c.peer_pub
        }),
{
    lemma_read_options_frame(Mode::Connect, c, args, 0);
    lemma_read_options_frame(Mode::Listen, c, args, 0);
    lemma_read_options_frame(Mode::Setup, c, args, 0);
}

/// A `listen` command line is accepted exactly when every option reads
/// without error (each one of `--port`, `--my-priv`, `--peer-pub`, each
/// followed by a value, each port value parsing) and the settings read end
/// with a non-zero port and both keys; it then sets the mode to `listen`
/// and the address to `0.0.0.0`, whatever it was.
pub proof fn law_listen_accepts(c: ConnectionView, args: Seq<Seq<char>>)
    ensures
        ({
            let c1 = spec_read_options(Mode::Listen, c, args, 0).0;
            spec_parse_listen(c, args).1 is Ok <==> (forall|j: int| 0 <= j < args.len() && j % 2 == 0
                ==> #[trigger] option_ok(Mode::Listen, args, j)) && c1.port != 0 && c1.my_priv is Some
                && c1.peer_pub is Some
        }),
        spec_parse_listen(c, args).1 is Ok ==> spec_parse_listen(c, args).0 == (ConnectionView {
            mode: Mode::Listen,
            ip: seq![0u8, 0u8, 0u8, 0u8],
            ..spec_read_options(Mode::Listen, c, args, 0).0
        }),
{
    lemma_read_options_ok(Mode::Listen, c, args, 0);
    assert forall|j: int| 0 <= j < args.len() && j % 2 == 0 implies #[trigger] option_ok(Mode::Listen, args, j) == option_ok(Mode::Listen, args, j) && (j - 0) % 2 == 0 by {}
}

/// A `setup` command line is accepted exactly when every option is
/// `--out-dir` followed by a value and an output directory is then set (by
/// an option or before); it then sets the mode to `setup`, with the last
/// `--out-dir` value, and leaves everything else as it was.
pub proof fn law_setup_accepts(c: ConnectionView, args: Seq<Seq<char>>)
    ensures
        ({
            let c1 = spec_read_options(Mode::Setup, c, args, 0).0;
            spec_parse_setup(c, args).1 is Ok <==> (forall|j: int| 0 <= j < args.len() && j % 2 == 0
                ==> #[trigger] option_ok(Mode::Setup, args, j)) && c1.out_dir is Some
        }),
        spec_parse_setup(c, args).1 is Ok ==> ({
            let c2 = spec_parse_setup(c, args).0;
            c2.mode == Mode::Setup && c2.ip == c.ip && c2.port == c.port && c2.my_priv == c.my_priv
                && c2.peer_pub == c.peer_pub
        }),
{
    lemma_read_options_ok(Mode::Setup, c, args, 0);
    lemma_read_options_frame(Mode::Setup, c, args, 0);
    assert forall|j: int| 0 <= j < args.len() && j % 2 == 0 implies #[trigger] option_ok(Mode::Setup, args, j) == option_ok(Mode::Setup, args, j) && (j - 0) % 2 == 0 by {}
}

/// `k` zero digits.
pub open spec fn zeros(k: nat) -> Seq<char> {
    Seq::new(k, |_i: int| '0')
}

proof fn lemma_digit_char(d: nat)
    requires
        d < 10,
    ensures
        is_digit(digit_char(d)),
        (digit_char(d) as nat) - ('0' as nat) == d,
        digit_char(d) == '0' <==> d == 0,
{
}

/// The decimal digits of `n` are digits, write `n`, and start with `0`
/// only where `n` is zero.
proof fn lemma_decimal_digits(n: nat)
    ensures
        decimal(n).len() >= 1,
        all_digits(decimal(n)),
        digits_value(decimal(n)) == n,
        decimal(n)[0] == '0' ==> n == 0,
        decimal(n).len() == 1 <==> n < 10,
        n < 100 ==> decimal(n).len() <= 2,
        n < 1000 ==> decimal(n).len() <= 3,
    decreases n,
{
    if n < 10 {
        lemma_digit_char(n);
        assert(decimal(n).drop_last() =~= Seq::<char>::empty());
        assert(digits_value(Seq::<char>::empty()) == 0);
        assert(decimal(n).last() == digit_char(n));
    } else {
        lemma_decimal_digits(n / 10);
        lemma_digit_char(n % 10);
        let d = decimal(n);
        assert(d == decimal(n / 10).push(digit_char(n % 10)));
        assert(d.drop_last() =~= decimal(n / 10));
        assert(d.last() == digit_char(n % 10));
        assert(digits_value(d) == digits_value(d.drop_last()) * 10 + ((d.last() as nat) - ('0' as nat)) as nat);
        assert(d[0] == decimal(n / 10)[0]);
        assert((n / 10) * 10 + n % 10 == n) by (nonlinear_arith);
        assert(digits_value(d.drop_last()) == n / 10);
        assert(((d.last() as nat) - ('0' as nat)) as nat == n % 10);
        assert(digits_value(d) == (n / 10) * 10 + n % 10);
        assert(n < 1000 ==> n / 10 < 100) by (nonlinear_arith);
        assert(n < 100 ==> n / 10 < 10) by (nonlinear_arith);
        assert(n / 10 >= 1) by (nonlinear_arith)
            requires
                n >= 10,
        ;
    }
}

proof fn lemma_zeros_value(k: nat, s: Seq<char>)
    requires
        all_digits(s),
    ensures
        all_digits(zeros(k) + s),
        digits_value(zeros(k) + s) == digits_value(s),
    decreases s.len() + k,
{
    let z = zeros(k) + s;
    assert forall|i: int| 0 <= i < z.len() implies is_digit(#[trigger] z[i]) by {
        if i >= k {
            assert(z[i] == s[i - k]);
        }
    }
    if s.len() > 0 {
        lemma_zeros_value(k, s.drop_last());
        assert(z.drop_last() =~= zeros(k) + s.drop_last());
        assert(z.last() == s.last());
    } else if k > 0 {
        lemma_zeros_value((k - 1) as nat, s);
        assert(z =~= zeros(k));
        assert(z.drop_last() =~= zeros((k - 1) as nat) + s);
    } else {
        assert(z =~= s);
    }
}

/// Every non-empty string of digits is some zeros followed by the decimal
/// digits of its value.
proof fn lemma_digits_shape(s: Seq<char>) -> (k: nat)
    requires
        all_digits(s),
        s.len() > 0,
    ensures
        s == zeros(k) + decimal(digits_value(s)),
    decreases s.len(),
{
    let c = s.last();
    let d = ((c as nat) - ('0' as nat)) as nat;
    assert(is_digit(c));
    assert(d < 10);
    assert(digit_char(d) == c);
    if s.len() == 1 {
        assert(s.drop_last() =~= Seq::<char>::empty());
        assert(digits_value(s.drop_last()) == 0);
        assert(digits_value(s) == d);
        assert(s =~= zeros(0) + decimal(d));
        0
    } else {
        let p = s.drop_last();
        assert(all_digits(p)) by {
            assert forall|i: int| 0 <= i < p.len() implies is_digit(#[trigger] p[i]) by {
                assert(p[i] == s[i]);
            }
        }
        let k0 = lemma_digits_shape(p);
        let v0 = digits_value(p);
        let v = digits_value(s);
        assert(v == v0 * 10 + d);
        assert(s =~= p.push(c));
        if v0 == 0 {
            assert(decimal(0) =~= seq!['0']) by {
                assert(digit_char(0) == '0');
            }
            assert(v == d);
            assert(s =~= zeros(k0 + 1) + decimal(d));
            k0 + 1
        } else {
            assert(v / 10 == v0 && v % 10 == d) by (nonlinear_arith)
                requires
                    v == v0 * 10 + d,
                    d < 10,
            ;
            assert(v >= 10) by (nonlinear_arith)
                requires
                    v == v0 * 10 + d,
                    v0 >= 1,
            ;
            assert(decimal(v) == decimal(v0).push(c));
            assert(s =~= zeros(k0) + decimal(v));
            k0
        }
    }
}

/// A port is read from its decimal digits, after any number of leading
/// zeros and an optional `+`: every number up to 65535 reads as itself,
/// and every larger one is refused.
pub proof fn law_port_reads_decimal(m: nat, k: nat)
    ensures
        m <= 65535 ==> spec_parse_u16(zeros(k) + decimal(m)) == Some(m as u16),
        m <= 65535 ==> spec_parse_u16(seq!['+'] + zeros(k) + decimal(m)) == Some(m as u16),
        m > 65535 ==> spec_parse_u16(zeros(k) + decimal(m)) is None,
        m > 65535 ==> spec_parse_u16(seq!['+'] + zeros(k) + decimal(m)) is None,
{
    lemma_decimal_digits(m);
    lemma_zeros_value(k, decimal(m));
    let s = zeros(k) + decimal(m);
    assert(is_digit(s[0]));
    let t = seq!['+'] + s;
    assert(seq!['+'] + zeros(k) + decimal(m) =~= t);
    assert(t.drop_first() =~= s);
    assert(t[0] == '+');
}

/// Every string that reads as a port is its value's decimal digits, after
/// some leading zeros and perhaps a `+`.
pub proof fn law_port_text(s: Seq<char>)
    ensures
        spec_parse_u16(s) matches Some(n) ==> exists|k: nat|
            s == zeros(k) + decimal(n as nat) || s == seq!['+'] + zeros(k) + decimal(n as nat),
{
    if let Some(n) = spec_parse_u16(s) {
        let body = if s.len() > 0 && s[0] == '+' { s.drop_first() } else { s };
        let k = lemma_digits_shape(body);
        assert(digits_value(body) == n as nat);
        assert(body == zeros(k) + decimal(n as nat));
        if s.len() > 0 && s[0] == '+' {
            assert(s =~= seq!['+'] + body);
            assert(s =~= seq!['+'] + zeros(k) + decimal(n as nat));
        }
        assert(s == zeros(k) + decimal(n as nat) || s == seq!['+'] + zeros(k) + decimal(n as nat));
    }
}

/// The dotted-decimal text of four octets: each in decimal without leading
/// zeros, separated by dots.
pub open spec fn ipv4_text(a: Seq<u8>) -> Seq<char> {
    decimal(a[0] as nat) + seq!['.'] + decimal(a[1] as nat) + seq!['.'] + decimal(a[2] as nat) + seq![
        '.',
    ] + decimal(a[3] as nat)
}

/// The pieces joined again, with a dot between each two.
spec fn join_dots(f: Seq<Seq<char>>) -> Seq<char>
    decreases f.len(),
{
    if f.len() <= 1 {
        if f.len() == 1 {
            f[0]
        } else {
            Seq::<char>::empty()
        }
    } else {
        join_dots(f.drop_last()) + seq!['.'] + f.last()
    }
}

proof fn lemma_join_dot_fields(s: Seq<char>)
    ensures
        join_dots(dot_fields(s)) == s,
    decreases s.len(),
{
    lemma_dot_fields_nonempty(s);
    if s.len() > 0 {
        let p = s.drop_last();
        let c = s.last();
        lemma_join_dot_fields(p);
        lemma_dot_fields_nonempty(p);
        let f = dot_fields(p);
        let g = dot_fields(s);
        assert(s =~= p.push(c));
        if c == '.' {
            assert(g == f.push(Seq::<char>::empty()));
            assert(g.drop_last() =~= f);
            assert(join_dots(g) =~= s);
        } else {
            assert(g == f.update(f.len() - 1, f.last().push(c)));
            if f.len() == 1 {
                assert(join_dots(g) =~= s);
            } else {
                assert(g.drop_last() =~= f.drop_last());
                assert(join_dots(g) =~= s);
            }
        }
    }
}

/// Whether `t` holds no dot.
spec fn no_dot(t: Seq<char>) -> bool {
    forall|i: int| 0 <= i < t.len() ==> #[trigger] t[i] != '.'
}

proof fn lemma_dot_fields_plain(s: Seq<char>, t: Seq<char>)
    requires
        no_dot(t),
    ensures
        dot_fields(s + t) == dot_fields(s).update(
            dot_fields(s).len() - 1,
            dot_fields(s).last() + t,
        ),
    decreases t.len(),
{
    lemma_dot_fields_nonempty(s);
    let f = dot_fields(s);
    if t.len() == 0 {
        assert(s + t =~= s);
        assert(f.last() + t =~= f.last());
        assert(f.update(f.len() - 1, f.last()) =~= f);
    } else {
        let t0 = t.drop_last();
        assert(no_dot(t0)) by {
            assert forall|i: int| 0 <= i < t0.len() implies #[trigger] t0[i] != '.' by {
                assert(t0[i] == t[i]);
            }
        }
        lemma_dot_fields_plain(s, t0);
        assert((s + t).drop_last() =~= s + t0);
        assert((s + t).last() == t.last());
        assert(t.last() != '.');
        let g = dot_fields(s + t0);
        assert(dot_fields(s + t) == g.update(g.len() - 1, g.last().push(t.last())));
        assert(g.len() == f.len());
        assert(g.last() == f.last() + t0);
        assert(g.last().push(t.last()) =~= f.last() + t);
        assert(dot_fields(s + t) =~= f.update(f.len() - 1, f.last() + t));
    }
}

proof fn lemma_dot_fields_dot(s: Seq<char>)
    ensures
        dot_fields(s + seq!['.']) == dot_fields(s).push(Seq::<char>::empty()),
{
    assert((s + seq!['.']).drop_last() =~= s);
}

/// The decimal digits of an octet are its dotted-decimal form, hold no
/// dot, and read back as the octet.
proof fn lemma_octet_decimal(x: u8)
    ensures
        octet_value(decimal(x as nat)) == Some(x),
        no_dot(decimal(x as nat)),
{
    lemma_decimal_digits(x as nat);
    let d = decimal(x as nat);
    assert forall|i: int| 0 <= i < d.len() implies #[trigger] d[i] != '.' by {
        assert(is_digit(d[i]));
    }
}

/// A field with an octet value is that octet's decimal digits.
proof fn lemma_octet_text(f: Seq<char>)
    ensures
        octet_value(f) matches Some(x) ==> f == decimal(x as nat),
{
    if let Some(x) = octet_value(f) {
        let k = lemma_digits_shape(f);
        lemma_decimal_digits(digits_value(f));
        if k > 0 {
            assert(f[0] == '0');
            assert(f.len() > 1);
        }
        assert(f =~= decimal(digits_value(f)));
    }
}

/// Every address written as four octets in dotted decimal, without
/// leading zeros, reads as those four octets (from `0.0.0.0` to
/// `255.255.255.255`).
pub proof fn law_ipv4_reads_dotted(a: Seq<u8>)
    requires
        a.len() == 4,
    ensures
        spec_parse_ipv4(ipv4_text(a)) == Some(a),
{
    lemma_octet_decimal(a[0]);
    lemma_octet_decimal(a[1]);
    lemma_octet_decimal(a[2]);
    lemma_octet_decimal(a[3]);
    let d0 = decimal(a[0] as nat);
    let d1 = decimal(a[1] as nat);
    let d2 = decimal(a[2] as nat);
    let d3 = decimal(a[3] as nat);
    let e = Seq::<char>::empty();
    lemma_dot_fields_plain(e, d0);
    assert(e + d0 =~= d0);
    assert(seq![e].update(0, e + d0) =~= seq![d0]);
    assert(dot_fields(d0) == seq![d0]);
    let s1 = d0 + seq!['.'];
    lemma_dot_fields_dot(d0);
    lemma_dot_fields_plain(s1, d1);
    assert(seq![d0, e].update(1, e + d1) =~= seq![d0, d1]);
    assert(seq![d0].push(e) =~= seq![d0, e]);
    let s2 = s1 + d1 + seq!['.'];
    lemma_dot_fields_dot(s1 + d1);
    lemma_dot_fields_plain(s2, d2);
    assert(seq![d0, d1].push(e) =~= seq![d0, d1, e]);
    assert(seq![d0, d1, e].update(2, e + d2) =~= seq![d0, d1, d2]);
    let s3 = s2 + d2 + seq!['.'];
    lemma_dot_fields_dot(s2 + d2);
    lemma_dot_fields_plain(s3, d3);
    assert(seq![d0, d1, d2].push(e) =~= seq![d0, d1, d2, e]);
    assert(seq![d0, d1, d2, e].update(3, e + d3) =~= seq![d0, d1, d2, d3]);
    assert(ipv4_text(a) =~= s3 + d3);
    assert(dot_fields(ipv4_text(a)) == seq![d0, d1, d2, d3]);
    assert(seq![a[0], a[1], a[2], a[3]] =~= a);
}

/// Every string that reads as an address is the dotted-decimal text of
/// its four octets.
pub proof fn law_ipv4_text(s: Seq<char>)
    ensures
        spec_parse_ipv4(s) matches Some(v) ==> v.len() == 4 && s == ipv4_text(v),
{
    if let Some(v) = spec_parse_ipv4(s) {
        let f = dot_fields(s);
        lemma_join_dot_fields(s);
        lemma_octet_text(f[0]);
        lemma_octet_text(f[1]);
        lemma_octet_text(f[2]);
        lemma_octet_text(f[3]);
        assert(f.drop_last().drop_last().drop_last() =~= seq![f[0]]);
        assert(f.drop_last().drop_last() =~= seq![f[0], f[1]]);
        assert(f.drop_last() =~= seq![f[0], f[1], f[2]]);
        let f1 = seq![f[0]];
        let f2 = seq![f[0], f[1]];
        let f3 = seq![f[0], f[1], f[2]];
        assert(join_dots(f1) == f[0]);
        assert(f2.drop_last() =~= f1);
        assert(f3.drop_last() =~= f2);
        assert(join_dots(f2) == join_dots(f1) + seq!['.'] + f[1]);
        assert(join_dots(f3) == join_dots(f2) + seq!['.'] + f[2]);
        assert(join_dots(f) == join_dots(f3) + seq!['.'] + f[3]);
        assert(s == f[0] + seq!['.'] + f[1] + seq!['.'] + f[2] + seq!['.'] + f[3]);
        assert(s =~= ipv4_text(v));
    }
}

/// Whether `opt` stands at `j`, an even position of `args`, with a value
/// after it, and at no later even position.
pub open spec fn last_option_at(args: Seq<Seq<char>>, opt: Seq<char>, j: int) -> bool {
    &&& 0 <= j && j + 1 < args.len() && j % 2 == 0
    &&& args[j] == opt
    &&& forall|k: int| j < k < args.len() && k % 2 == 0 ==> #[trigger] args[k] != opt
}

spec fn given_from(args: Seq<Seq<char>>, opt: Seq<char>, i: int) -> bool {
    exists|k: int| i <= k < args.len() && (k - i) % 2 == 0 && #[trigger] args[k] == opt
}

spec fn last_from(args: Seq<Seq<char>>, opt: Seq<char>, i: int, j: int) -> bool {
    &&& i <= j && j + 1 < args.len() && (j - i) % 2 == 0
    &&& args[j] == opt
    &&& forall|k: int| j < k < args.len() && (k - i) % 2 == 0 ==> #[trigger] args[k] != opt
}

/// How the last place of an option from `i` on relates to that from
/// `i + 2` on.
proof fn lemma_last_step(args: Seq<Seq<char>>, opt: Seq<char>, i: int)
    requires
        0 <= i,
        i + 1 < args.len(),
    ensures
        forall|j: int| #[trigger] last_from(args, opt, i, j) && j != i ==> last_from(args, opt, i + 2, j),
        forall|j: int| #[trigger] last_from(args, opt, i + 2, j) ==> last_from(args, opt, i, j),
        last_from(args, opt, i, i) ==> !given_from(args, opt, i + 2),
        args[i] == opt && !given_from(args, opt, i + 2) ==> last_from(args, opt, i, i),
        given_from(args, opt, i) <==> args[i] == opt || given_from(args, opt, i + 2),
{
    assert forall|j: int| #[trigger] last_from(args, opt, i, j) && j != i implies last_from(args, opt, i + 2, j) by {
        assert forall|k: int| j < k < args.len() && (k - (i + 2)) % 2 == 0 implies #[trigger] args[k] != opt by {
            assert((k - i) % 2 == 0);
        }
    }
    assert forall|j: int| #[trigger] last_from(args, opt, i + 2, j) implies last_from(args, opt, i, j) by {
        assert forall|k: int| j < k < args.len() && (k - i) % 2 == 0 implies #[trigger] args[k] != opt by {
            assert((k - (i + 2)) % 2 == 0);
        }
    }
    if last_from(args, opt, i, i) && given_from(args, opt, i + 2) {
        let k = choose|k: int| i + 2 <= k < args.len() && (k - (i + 2)) % 2 == 0 && #[trigger] args[k] == opt;
        assert((k - i) % 2 == 0);
    }
    if args[i] == opt && !given_from(args, opt, i + 2) {
        assert forall|k: int| i < k < args.len() && (k - i) % 2 == 0 implies #[trigger] args[k] != opt by {
            assert((k - (i + 2)) % 2 == 0);
            assert(i + 2 <= k);
        }
    }
    if given_from(args, opt, i) && args[i] != opt {
        let k = choose|k: int| i <= k < args.len() && (k - i) % 2 == 0 && #[trigger] args[k] == opt;
        assert(k != i);
        assert((k - (i + 2)) % 2 == 0);
    }
    if given_from(args, opt, i + 2) {
        let k = choose|k: int| i + 2 <= k < args.len() && (k - (i + 2)) % 2 == 0 && #[trigger] args[k] == opt;
        assert((k - i) % 2 == 0);
    }
    if args[i] == opt {
        assert((i - i) % 2 == 0);
    }
}

/// After options read without error from `i` on, each setting holds the
/// value after the last option that sets it, or what it held before where
/// no option sets it; and an option that is given has a last place.
proof fn lemma_options_last(kind: Mode, c: ConnectionView, args: Seq<Seq<char>>, i: nat)
    requires
        spec_read_options(kind, c, args, i).1 is None,
    ensures
        ({
            let c1 = spec_read_options(kind, c, args, i).0;
            &&& forall|j: int| #[trigger] last_from(args, "--port"@, i as int, j)
                ==> spec_parse_u16(args[j + 1]) == Some(c1.port)
            &&& !given_from(args, "--port"@, i as int) ==> c1.port == c.port
            &&& forall|j: int| #[trigger] last_from(args, "--ip"@, i as int, j)
                ==> spec_parse_ipv4(args[j + 1]) == Some(c1.ip)
            &&& !given_from(args, "--ip"@, i as int) ==> c1.ip == c.ip
            &&& forall|j: int| #[trigger] last_from(args, "--my-priv"@, i as int, j)
                ==> c1.my_priv == Some(args[j + 1])
            &&& !given_from(args, "--my-priv"@, i as int) ==> c1.my_priv == c.my_priv
            &&& forall|j: int| #[trigger] last_from(args, "--peer-pub"@, i as int, j)
                ==> c1.peer_pub == Some(args[j + 1])
            &&& !given_from(args, "--peer-pub"@, i as int) ==> c1.peer_pub == c.peer_pub
            &&& forall|j: int| #[trigger] last_from(args, "--out-dir"@, i as int, j)
                ==> c1.out_dir == Some(args[j + 1])
            &&& !given_from(args, "--out-dir"@, i as int) ==> c1.out_dir == c.out_dir
        }),
        forall|opt: Seq<char>| #[trigger] given_from(args, opt, i as int)
            ==> exists|j: int| #[trigger] last_from(args, opt, i as int, j),
    decreases args.len() - i,
{
    lemma_option_words_differ();
    if i < args.len() {
        let a = args[i as int];
        let v = args[i + 1 as int];
        let has_value = i + 1 < args.len();
        let next = if kind != Mode::Setup && a == "--port"@ && has_value && spec_parse_u16(v) is Some {
            Some(ConnectionView { port: spec_parse_u16(v).unwrap(), ..c })
        } else if kind == Mode::Connect && a == "--ip"@ && has_value && spec_parse_ipv4(v) is Some {
            Some(ConnectionView { ip: spec_parse_ipv4(v).unwrap(), ..c })
        } else if kind != Mode::Setup && a == "--my-priv"@ && has_value {
            Some(ConnectionView { my_priv: Some(v), ..c })
        } else if kind != Mode::Setup && a == "--peer-pub"@ && has_value {
            Some(ConnectionView { peer_pub: Some(v), ..c })
        } else if kind == Mode::Setup && a == "--out-dir"@ && has_value {
            Some(ConnectionView { out_dir: Some(v), ..c })
        } else {
            None
        };
        assert(next is Some);
        let c2 = next.unwrap();
        assert(spec_read_options(kind, c, args, i) == spec_read_options(kind, c2, args, i + 2));
        lemma_options_last(kind, c2, args, i + 2);
        let ii = i as int;
        lemma_last_step(args, "--port"@, ii);
        lemma_last_step(args, "--ip"@, ii);
        lemma_last_step(args, "--my-priv"@, ii);
        lemma_last_step(args, "--peer-pub"@, ii);
        lemma_last_step(args, "--out-dir"@, ii);
        assert forall|opt: Seq<char>| #[trigger] given_from(args, opt, ii)
            implies exists|j: int| #[trigger] last_from(args, opt, ii, j) by {
            lemma_last_step(args, opt, ii);
            if given_from(args, opt, ii + 2) {
                let j = choose|j: int| #[trigger] last_from(args, opt, ii + 2, j);
                assert(last_from(args, opt, ii, j));
            } else {
                assert(last_from(args, opt, ii, ii));
            }
        }
    } else {
        assert forall|opt: Seq<char>| !#[trigger] given_from(args, opt, i as int) by {}
        assert forall|opt: Seq<char>, j: int| !#[trigger] last_from(args, opt, i as int, j) by {}
    }
}

/// Options that read without error set each setting to the value after
/// the last option that names it, whatever the order of the options
/// (`--my-priv` sets the own key, `--peer-pub` the peer's, and so on); a
/// setting that no option names keeps what it held; and an option that is
/// given has a last place.
pub proof fn law_last_option_wins(kind: Mode, c: ConnectionView, args: Seq<Seq<char>>)
    requires
        spec_read_options(kind, c, args, 0).1 is None,
    ensures
        ({
            let c1 = spec_read_options(kind, c, args, 0).0;
            &&& forall|j: int| #[trigger] last_option_at(args, "--port"@, j)
                ==> spec_parse_u16(args[j + 1]) == Some(c1.port)
            &&& !option_given(args, "--port"@) ==> c1.port == c.port
            &&& forall|j: int| #[trigger] last_option_at(args, "--ip"@, j)
                ==> spec_parse_ipv4(args[j + 1]) == Some(c1.ip)
            &&& !option_given(args, "--ip"@) ==> c1.ip == c.ip
            &&& forall|j: int| #[trigger] last_option_at(args, "--my-priv"@, j)
                ==> c1.my_priv == Some(args[j + 1])
            &&& !option_given(args, "--my-priv"@) ==> c1.my_priv == c.my_priv
            &&& forall|j: int| #[trigger] last_option_at(args, "--peer-pub"@, j)
                ==> c1.peer_pub == Some(args[j + 1])
            &&& !option_given(args, "--peer-pub"@) ==> c1.peer_pub == c.peer_pub
            &&& forall|j: int| #[trigger] last_option_at(args, "--out-dir"@, j)
                ==> c1.out_dir == Some(args[j + 1])
            &&& !option_given(args, "--out-dir"@) ==> c1.out_dir == c.out_dir
        }),
        forall|opt: Seq<char>| #[trigger] option_given(args, opt)
            ==> exists|j: int| #[trigger] last_option_at(args, opt, j),
{
    lemma_options_last(kind, c, args, 0);
    assert forall|opt: Seq<char>, j: int| #[trigger] last_option_at(args, opt, j) implies last_from(args, opt, 0, j) by {
        assert forall|k: int| j < k < args.len() && (k - 0) % 2 == 0 implies #[trigger] args[k] != opt by {}
    }
    assert forall|opt: Seq<char>, j: int| #[trigger] last_from(args, opt, 0, j) implies last_option_at(args, opt, j) by {
        assert forall|k: int| j < k < args.len() && k % 2 == 0 implies #[trigger] args[k] != opt by {
            assert((k - 0) % 2 == 0);
        }
    }
    assert forall|opt: Seq<char>| #[trigger] option_given(args, opt) <==> given_from(args, opt, 0) by {
        if option_given(args, opt) {
            let k = choose|k: int| 0 <= k < args.len() && k % 2 == 0 && #[trigger] args[k] == opt;
            assert((k - 0) % 2 == 0);
        }
        if given_from(args, opt, 0) {
            let k = choose|k: int| 0 <= k < args.len() && (k - 0) % 2 == 0 && #[trigger] args[k] == opt;
            assert(k % 2 == 0);
        }
    }
    assert forall|opt: Seq<char>| #[trigger] option_given(args, opt)
        implies exists|j: int| #[trigger] last_option_at(args, opt, j) by {
        let j = choose|j: int| #[trigger] last_from(args, opt, 0, j);
        assert(last_option_at(args, opt, j));
    }
}

} // verus!
