use vstd::prelude::*;
use vstd::string::*;

verus! {

/// The largest body a frame may announce, in bytes.
pub const MAX_FRAME_LEN: usize = 16384;

/// The four big-endian bytes of `x`.
pub open spec fn be_bytes(x: u32) -> Seq<u8> {
    seq![(x >> 24u32) as u8, ((x >> 16u32) & 0xffu32) as u8, ((x >> 8u32) & 0xffu32) as u8, (x & 0xffu32) as u8]
}

/// The number that four big-endian bytes write.
pub open spec fn be_value(b: Seq<u8>) -> int {
    b[0] * 16777216 + b[1] * 65536 + b[2] * 256 + b[3]
}

/// A frame: the length of `data` as four big-endian bytes, then `data`.
/// A length beyond `u32` keeps only its low 32 bits, as the `as u32` cast
/// of the sender does.
pub open spec fn spec_encode_frame(data: Seq<u8>) -> Seq<u8> {
    be_bytes(data.len() as u32) + data
}

/// The decimal digits of `n`, most significant first, without leading zeros.
pub open spec fn decimal(n: nat) -> Seq<char>
    decreases n,
{
    if n < 10 {
        seq![digit_char(n)]
    } else {
        decimal(n / 10).push(digit_char(n % 10))
    }
}

/// The character of the digit `d`.
pub open spec fn digit_char(d: nat) -> char {
    (('0' as nat) + d) as char
}

/// What a receiver makes of a frame header: the announced length, or an
/// error when it is beyond `MAX_FRAME_LEN`.
pub open spec fn spec_frame_len(header: Seq<u8>) -> Result<nat, Seq<char>> {
    let len = be_value(header);
    if len > MAX_FRAME_LEN {
        Err("frame too large: "@ + decimal(len as nat))
    } else {
        Ok(len as nat)
    }
}

fn push_digit(s: &mut String, d: u64)
    requires
        d < 10,
    ensures
        final(s)@ == old(s)@.push(digit_char(d as nat)),
{
    proof {
        reveal_strlit("0");
        reveal_strlit("1");
        reveal_strlit("2");
        reveal_strlit("3");
        reveal_strlit("4");
        reveal_strlit("5");
        reveal_strlit("6");
        reveal_strlit("7");
        reveal_strlit("8");
        reveal_strlit("9");
    }
    let ghost before = s@;
    if d == 0 {
        s.append("0");
    } else if d == 1 {
        s.append("1");
    } else if d == 2 {
        s.append("2");
    } else if d == 3 {
        s.append("3");
    } else if d == 4 {
        s.append("4");
    } else if d == 5 {
        s.append("5");
    } else if d == 6 {
        s.append("6");
    } else if d == 7 {
        s.append("7");
    } else if d == 8 {
        s.append("8");
    } else {
        s.append("9");
    }
    assert(s@ =~= before.push(digit_char(d as nat)));
}

/// Appends the decimal digits of `n` to `s`.
pub fn append_decimal(s: &mut String, n: u64)
    ensures
        final(s)@ == old(s)@ + decimal(n as nat),
    decreases n,
{
    let ghost before = s@;
    if n >= 10 {
        append_decimal(s, n / 10);
    }
    push_digit(s, n % 10);
    assert(s@ =~= before + decimal(n as nat));
}

/// Lays out a frame: the length of `data` as four big-endian bytes, then
/// `data` itself.
pub fn encode_frame(data: &[u8]) -> (r: Vec<u8>)
    ensures
        r@ == spec_encode_frame(data@),
{
    #[verifier::truncate]
    let len: u32 = data.len() as u32;
    let mut out: Vec<u8> = Vec::new();
    out.push((len >> 24u32) as u8);
    out.push(((len >> 16u32) & 0xffu32) as u8);
    out.push(((len >> 8u32) & 0xffu32) as u8);
    out.push((len & 0xffu32) as u8);
    let n = data.len();
    let mut i: usize = 0;
    while i < n
        invariant
            n == data@.len(),
            i <= n,
            out@ == be_bytes(len) + data@.take(i as int),
        decreases n - i,
    {
        out.push(data[i]);
        i = i + 1;
        proof {
            assert(data@.take(i as int) =~= data@.take(i - 1).push(data@[i - 1]));
        }
    }
    proof {
        assert(data@.take(n as int) =~= data@);
    }
    out
}

/// Reads a frame header: the length it announces, or an error when that is
/// more than `MAX_FRAME_LEN` bytes.
pub fn frame_len(header: [u8; 4]) -> (r: Result<usize, String>)
    ensures
        match spec_frame_len(header@) {
            Ok(n) => r == Ok::<usize, String>(n as usize),
            Err(m) => r matches Err(e) && e@ == m,
        },
{
    let len: u32 = (header[0] as u32) * 16777216 + (header[1] as u32) * 65536 + (header[2] as u32)
        * 256 + (header[3] as u32);
    if len as usize > MAX_FRAME_LEN {
        let mut e = String::from_str("frame too large: ");
        append_decimal(&mut e, len as u64);
        return Err(e);
    }
    Ok(len as usize)
}

/// A frame read back gives what was written: its header announces the
/// length of the body, and the body follows it unchanged, for every body
/// of at most `MAX_FRAME_LEN` bytes.
pub proof fn law_frame_roundtrip(data: Seq<u8>)
    requires
        data.len() <= MAX_FRAME_LEN,
    ensures
        spec_frame_len(spec_encode_frame(data).take(4)) == Ok::<nat, Seq<char>>(data.len()),
        spec_encode_frame(data).skip(4) == data,
{
    let x = data.len() as u32;
    let f = spec_encode_frame(data);
    assert(f.take(4) =~= be_bytes(x));
    assert(f.skip(4) =~= data);
    let b0 = (x >> 24u32) as u8;
    let b1 = ((x >> 16u32) & 0xffu32) as u8;
    let b2 = ((x >> 8u32) & 0xffu32) as u8;
    let b3 = (x & 0xffu32) as u8;
    assert(b0 as u32 * 16777216 + b1 as u32 * 65536 + b2 as u32 * 256 + b3 as u32 == x) by (bit_vector)
        requires
            b0 == (x >> 24u32) as u8,
            b1 == ((x >> 16u32) & 0xffu32) as u8,
            b2 == ((x >> 8u32) & 0xffu32) as u8,
            b3 == (x & 0xffu32) as u8,
    ;
}

/// The header of a frame is the length of the body as a big-endian
/// number of four bytes, and the body follows it unchanged; for a body of
/// at most `MAX_FRAME_LEN` bytes the first header byte is zero.
pub proof fn law_frame_header_is_big_endian(data: Seq<u8>)
    requires
        data.len() <= u32::MAX,
    ensures
        spec_encode_frame(data).len() == data.len() + 4,
        spec_encode_frame(data)[0] * 16777216 + spec_encode_frame(data)[1] * 65536
            + spec_encode_frame(data)[2] * 256 + spec_encode_frame(data)[3] == data.len(),
        spec_encode_frame(data).skip(4) == data,
        data.len() <= MAX_FRAME_LEN ==> spec_encode_frame(data)[0] == 0,
{
    let x = data.len() as u32;
    let f = spec_encode_frame(data);
    assert(f.skip(4) =~= data);
    assert(f[0] == (x >> 24u32) as u8);
    assert(f[1] == ((x >> 16u32) & 0xffu32) as u8);
    assert(f[2] == ((x >> 8u32) & 0xffu32) as u8);
    assert(f[3] == (x & 0xffu32) as u8);
    let b0 = (x >> 24u32) as u8;
    let b1 = ((x >> 16u32) & 0xffu32) as u8;
    let b2 = ((x >> 8u32) & 0xffu32) as u8;
    let b3 = (x & 0xffu32) as u8;
    assert(b0 as u32 * 16777216 + b1 as u32 * 65536 + b2 as u32 * 256 + b3 as u32 == x) by (bit_vector)
        requires
            b0 == (x >> 24u32) as u8,
            b1 == ((x >> 16u32) & 0xffu32) as u8,
            b2 == ((x >> 8u32) & 0xffu32) as u8,
            b3 == (x & 0xffu32) as u8,
    ;
    assert(x <= 16384u32 ==> (x >> 24u32) as u8 == 0u8) by (bit_vector);
}

/// A receiver reads a header as a big-endian number of four bytes: it
/// announces exactly that length when the number is at most
/// `MAX_FRAME_LEN`, and is refused otherwise.
pub proof fn law_frame_len_is_big_endian(header: Seq<u8>)
    requires
        header.len() == 4,
    ensures
        header[0] * 16777216 + header[1] * 65536 + header[2] * 256 + header[3] <= MAX_FRAME_LEN
            ==> spec_frame_len(header) == Ok::<nat, Seq<char>>(
            (header[0] * 16777216 + header[1] * 65536 + header[2] * 256 + header[3]) as nat,
        ),
        header[0] * 16777216 + header[1] * 65536 + header[2] * 256 + header[3] > MAX_FRAME_LEN
            ==> spec_frame_len(header) is Err,
{
}

} // verus!
