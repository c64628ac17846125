use handshake_proxy::error::ProtocolError;
use handshake_proxy::varint::{read_varint, write_varint};
use handshake_proxy::wire::{read_bigendian_u16, read_string, write_bigendian_u16, write_string};

fn varint(val: i32) -> Vec<u8> {
    let mut out = Vec::new();
    write_varint(&mut out, val).unwrap();
    out
}

#[test]
fn varint_known_encodings() {
    assert_eq!(varint(0), vec![0x00]);
    assert_eq!(varint(1), vec![0x01]);
    assert_eq!(varint(127), vec![0x7f]);
    assert_eq!(varint(128), vec![0x80, 0x01]);
    assert_eq!(varint(255), vec![0xff, 0x01]);
    assert_eq!(varint(300), vec![0xac, 0x02]);
    assert_eq!(varint(510), vec![0xfe, 0x03]);
    assert_eq!(varint(758), vec![0xf6, 0x05]);
    assert_eq!(varint(25565), vec![0xdd, 0xc7, 0x01]);
    assert_eq!(varint(2097151), vec![0xff, 0xff, 0x7f]);
    assert_eq!(varint(i32::MAX), vec![0xff, 0xff, 0xff, 0xff, 0x07]);
}

#[test]
fn varint_known_decodings() {
    assert_eq!(read_varint(&[0x00]), Ok((0, 1)));
    assert_eq!(read_varint(&[0x7f]), Ok((127, 1)));
    assert_eq!(read_varint(&[0x80, 0x01]), Ok((128, 2)));
    assert_eq!(read_varint(&[0xfe, 0x03]), Ok((510, 2)));
    assert_eq!(read_varint(&[0xdd, 0xc7, 0x01]), Ok((25565, 3)));
    assert_eq!(read_varint(&[0xff, 0xff, 0xff, 0xff, 0x07]), Ok((i32::MAX, 5)));
}

#[test]
fn varint_reads_only_its_own_bytes() {
    assert_eq!(read_varint(&[0x05, 0xff, 0xff]), Ok((5, 1)));
    assert_eq!(read_varint(&[0xac, 0x02, 0x80]), Ok((300, 2)));
}

#[test]
fn varint_need_not_be_shortest() {
    assert_eq!(read_varint(&[0x80, 0x00]), Ok((0, 2)));
    assert_eq!(read_varint(&[0x81, 0x80, 0x80, 0x80, 0x00]), Ok((1, 5)));
}

#[test]
fn varint_five_bytes_wrap_to_32_bits() {
    assert_eq!(read_varint(&[0xff, 0xff, 0xff, 0xff, 0x0f]), Ok((-1, 5)));
    assert_eq!(read_varint(&[0x80, 0x80, 0x80, 0x80, 0x08]), Ok((i32::MIN, 5)));
    // The bits of the fifth byte that do not fit are dropped.
    assert_eq!(read_varint(&[0xff, 0xff, 0xff, 0xff, 0x7f]), Ok((-1, 5)));
    assert_eq!(read_varint(&[0x80, 0x80, 0x80, 0x80, 0x10]), Ok((0, 5)));
}

#[test]
fn varint_too_large() {
    assert_eq!(
        read_varint(&[0x80, 0x80, 0x80, 0x80, 0x80, 0x01]),
        Err(ProtocolError::VarIntTooLarge)
    );
    assert_eq!(
        read_varint(&[0xff, 0xff, 0xff, 0xff, 0xff]),
        Err(ProtocolError::VarIntTooLarge)
    );
}

#[test]
fn varint_truncated() {
    assert_eq!(read_varint(&[]), Err(ProtocolError::Truncated { needed: 1 }));
    assert_eq!(read_varint(&[0x80]), Err(ProtocolError::Truncated { needed: 1 }));
    assert_eq!(
        read_varint(&[0xff, 0xff, 0xff, 0xff]),
        Err(ProtocolError::Truncated { needed: 1 })
    );
}

#[test]
fn varint_refuses_negative_numbers() {
    let mut out = vec![0xaa];
    assert_eq!(write_varint(&mut out, -1), Err(ProtocolError::VarIntTooLarge));
    assert_eq!(out, vec![0xaa]);
    assert_eq!(write_varint(&mut out, i32::MIN), Err(ProtocolError::VarIntTooLarge));
    assert_eq!(out, vec![0xaa]);
}

#[test]
fn varint_appends_to_what_is_there() {
    let mut out = vec![0x01, 0x02];
    write_varint(&mut out, 300).unwrap();
    assert_eq!(out, vec![0x01, 0x02, 0xac, 0x02]);
}

#[test]
fn varint_round_trip() {
    let mut samples: Vec<i32> = vec![0, 1, 2, 126, 127, 128, 129, 255, 256, 510, 16383, 16384];
    samples.extend([2097151, 2097152, 268435455, 268435456, i32::MAX - 1, i32::MAX]);
    let mut x: i32 = 1;
    while x < i32::MAX / 3 {
        samples.push(x);
        x = x * 3 + 1;
    }
    for v in samples {
        let mut bytes = varint(v);
        let len = bytes.len();
        assert!(len <= 5);
        bytes.extend([0xff, 0x00]);
        assert_eq!(read_varint(&bytes), Ok((v, len)));
    }
}

#[test]
fn u16_known_values() {
    let mut out = Vec::new();
    write_bigendian_u16(&mut out, 25565);
    assert_eq!(out, vec![0x63, 0xdd]);
    write_bigendian_u16(&mut out, 1);
    assert_eq!(out, vec![0x63, 0xdd, 0x00, 0x01]);
    assert_eq!(read_bigendian_u16(&[0x63, 0xdd]), Ok((25565, 2)));
    assert_eq!(read_bigendian_u16(&[0x01, 0x00, 0xff]), Ok((256, 2)));
    assert_eq!(read_bigendian_u16(&[0xff, 0xff]), Ok((65535, 2)));
}

#[test]
fn u16_truncated() {
    assert_eq!(read_bigendian_u16(&[]), Err(ProtocolError::Truncated { needed: 2 }));
    assert_eq!(read_bigendian_u16(&[0x63]), Err(ProtocolError::Truncated { needed: 1 }));
}

#[test]
fn u16_round_trip() {
    for p in 0..=u16::MAX {
        let mut out = Vec::new();
        write_bigendian_u16(&mut out, p);
        assert_eq!(out.len(), 2);
        assert_eq!(read_bigendian_u16(&out), Ok((p, 2)));
    }
}

#[test]
fn string_known_encoding() {
    let mut out = Vec::new();
    write_string(&mut out, "10.0.0.5").unwrap();
    assert_eq!(out, vec![8, b'1', b'0', b'.', b'0', b'.', b'0', b'.', b'5']);
    assert_eq!(read_string(&out), Ok(("10.0.0.5".to_string(), 9)));
}

#[test]
fn string_empty() {
    let mut out = Vec::new();
    write_string(&mut out, "").unwrap();
    assert_eq!(out, vec![0]);
    assert_eq!(read_string(&[0, 0x41]), Ok((String::new(), 1)));
}

#[test]
fn string_length_counts_bytes() {
    let mut out = Vec::new();
    write_string(&mut out, "h\u{e9}llo \u{4e16}\u{754c}").unwrap();
    assert_eq!(out[0], 13);
    assert_eq!(out.len(), 14);
    assert_eq!(read_string(&out), Ok(("h\u{e9}llo \u{4e16}\u{754c}".to_string(), 14)));
}

#[test]
fn string_with_two_byte_length() {
    let text = "a".repeat(300);
    let mut out = Vec::new();
    write_string(&mut out, &text).unwrap();
    assert_eq!(&out[..2], &[0xac, 0x02]);
    assert_eq!(out.len(), 302);
    out.push(0x99);
    assert_eq!(read_string(&out), Ok((text, 302)));
}

#[test]
fn string_round_trip() {
    for text in ["", "a", "play.example.com", "\u{1f600}", "tab\tand\nnewline", "\u{0}\u{7f}\u{80}"] {
        let mut out = vec![0x07];
        write_string(&mut out, text).unwrap();
        assert_eq!(read_string(&out[1..]), Ok((text.to_string(), out.len() - 1)));
    }
}

#[test]
fn string_invalid_utf8() {
    assert_eq!(read_string(&[2, 0xc3, 0x28]), Err(ProtocolError::InvalidUtf8));
    assert_eq!(read_string(&[1, 0xff]), Err(ProtocolError::InvalidUtf8));
    // A character cut in two by the length prefix.
    assert_eq!(read_string(&[1, 0xc3, 0xa9]), Err(ProtocolError::InvalidUtf8));
}

#[test]
fn string_truncated() {
    assert_eq!(read_string(&[]), Err(ProtocolError::Truncated { needed: 1 }));
    assert_eq!(read_string(&[5]), Err(ProtocolError::Truncated { needed: 5 }));
    assert_eq!(read_string(&[5, b'a', b'b']), Err(ProtocolError::Truncated { needed: 3 }));
    assert_eq!(read_string(&[0xac]), Err(ProtocolError::Truncated { needed: 1 }));
    assert_eq!(read_string(&[0xac, 0x02, b'a']), Err(ProtocolError::Truncated { needed: 299 }));
}

#[test]
fn string_length_errors() {
    assert_eq!(
        read_string(&[0x80, 0x80, 0x80, 0x80, 0x80]),
        Err(ProtocolError::VarIntTooLarge)
    );
    // A length below zero.
    assert_eq!(
        read_string(&[0xff, 0xff, 0xff, 0xff, 0x0f, b'a']),
        Err(ProtocolError::VarIntTooLarge)
    );
}
