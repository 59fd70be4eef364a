use chating::frame::{append_decimal, encode_frame, frame_len, MAX_FRAME_LEN};

#[test]
fn frame_layout() {
    assert_eq!(encode_frame(b"abc"), vec![0, 0, 0, 3, b'a', b'b', b'c']);
    assert_eq!(encode_frame(b""), vec![0, 0, 0, 0]);
    let big = vec![7u8; 300];
    let f = encode_frame(&big);
    assert_eq!(&f[..4], &[0, 0, 1, 44]);
    assert_eq!(&f[4..], &big[..]);
}

#[test]
fn frame_header_lengths() {
    assert_eq!(frame_len([0, 0, 0, 0]), Ok(0));
    assert_eq!(frame_len([0, 0, 64, 0]), Ok(16384));
    assert_eq!(frame_len([0, 0, 64, 1]), Err("frame too large: 16385".to_string()));
    assert_eq!(
        frame_len([255, 255, 255, 255]),
        Err("frame too large: 4294967295".to_string())
    );
}

#[test]
fn frame_roundtrip() {
    for n in [0usize, 1, 255, 256, 4096, MAX_FRAME_LEN] {
        let data: Vec<u8> = (0..n).map(|i| (i % 251) as u8).collect();
        let f = encode_frame(&data);
        let header = [f[0], f[1], f[2], f[3]];
        assert_eq!(frame_len(header), Ok(n));
        assert_eq!(&f[4..], &data[..]);
    }
}

#[test]
fn decimal_text() {
    for n in [0u64, 7, 10, 99, 100, 16385, u64::MAX] {
        let mut s = String::from("x");
        append_decimal(&mut s, n);
        assert_eq!(s, format!("x{n}"));
    }
}
