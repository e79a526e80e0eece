use ftl_stats::{FtlConnection, StrOutcome, WireError};
use rmp::encode;

#[test]
fn read_i32_values() {
    for value in [0, 1, 10, -1, 255, 256, 65536, 0x7fff_ffff, i32::MIN, -559038737] {
        let mut data = Vec::new();
        encode::write_i32(&mut data, value).unwrap();
        let mut con = FtlConnection::new(&data);
        assert_eq!(con.read_i32(), Ok(value));
        assert_eq!(con.remaining(), 0);
    }
}

#[test]
fn read_i32_bytes() {
    let data = [0xd2, 0x01, 0x02, 0x03, 0x04, 0xff];
    let mut con = FtlConnection::new(&data);
    assert_eq!(con.read_i32(), Ok(0x0102_0304));
    assert_eq!(con.remaining(), 1);

    let data = [0xd2, 0xff, 0xff, 0xff, 0xfe];
    assert_eq!(FtlConnection::new(&data).read_i32(), Ok(-2));
    let data = [0xd2, 0x80, 0x00, 0x00, 0x00];
    assert_eq!(FtlConnection::new(&data).read_i32(), Ok(i32::MIN));
}

#[test]
fn read_i32_truncated() {
    let empty: [u8; 0] = [];
    let mut con = FtlConnection::new(&empty);
    assert_eq!(con.read_i32(), Err(WireError::TruncatedStream));
    assert_eq!(con.remaining(), 0);

    let data = [0xd2, 0x00, 0x00, 0x00];
    let mut con = FtlConnection::new(&data);
    assert_eq!(con.read_i32(), Err(WireError::TruncatedStream));
    assert_eq!(con.remaining(), 4);
}

#[test]
fn read_i32_type_mismatch() {
    // a positive fixnum, a 64-bit integer, a string, the reserved marker
    for marker in [0x0a, 0xd3, 0xa1, 0xc1] {
        let data = [marker, 0, 0, 0, 0, 0, 0, 0, 0];
        let mut con = FtlConnection::new(&data);
        assert_eq!(con.read_i32(), Err(WireError::TypeMismatch));
        assert_eq!(con.remaining(), 9);
    }
}

#[test]
fn read_str_short() {
    let mut data = Vec::new();
    encode::write_str(&mut data, "example.com").unwrap();
    encode::write_i32(&mut data, 7).unwrap();
    let mut buffer = vec![0u8; 16];
    let mut con = FtlConnection::new(&data);
    assert_eq!(con.read_str(&mut buffer), StrOutcome::Text("example.com".to_string()));
    assert_eq!(con.remaining(), 5);
    assert_eq!(&buffer[..11], b"example.com");
    assert_eq!(&buffer[11..], [0u8; 5]);
    assert_eq!(con.read_i32(), Ok(7));
}

#[test]
fn read_str_empty() {
    let data = [0xa0, 0xc1];
    let mut buffer = vec![9u8; 4];
    let mut con = FtlConnection::new(&data);
    assert_eq!(con.read_str(&mut buffer), StrOutcome::Text(String::new()));
    assert_eq!(con.remaining(), 1);
    assert_eq!(buffer, vec![9u8; 4]);
    // nothing fits a buffer without room but the empty text
    let mut none: Vec<u8> = Vec::new();
    assert_eq!(
        FtlConnection::new(&data).read_str(&mut none),
        StrOutcome::Text(String::new())
    );
}

#[test]
fn read_str_with_length_byte() {
    let text = "a".repeat(40);
    let mut data = Vec::new();
    encode::write_str(&mut data, &text).unwrap();
    assert_eq!(data[0], 0xd9);
    data.push(0xc1);
    let mut buffer = vec![0u8; 4096];
    let mut con = FtlConnection::new(&data);
    assert_eq!(con.read_str(&mut buffer), StrOutcome::Text(text));
    assert_eq!(con.remaining(), 1);
    assert_eq!(con.read_str(&mut buffer), StrOutcome::EndOfMessage);
    assert_eq!(con.remaining(), 0);
}

#[test]
fn read_str_with_two_length_bytes() {
    let text = "b".repeat(300);
    let mut data = Vec::new();
    encode::write_str(&mut data, &text).unwrap();
    assert_eq!(&data[..3], [0xda, 0x01, 0x2c]);
    data.extend_from_slice(&[1, 2, 3]);
    let mut buffer = vec![0u8; 4096];
    let mut con = FtlConnection::new(&data);
    assert_eq!(con.read_str(&mut buffer), StrOutcome::Text(text));
    assert_eq!(con.remaining(), 3);
}

#[test]
fn read_str_with_four_length_bytes() {
    let data = [0xdb, 0, 0, 0, 3, b'a', b'b', b'c', 0xd2];
    let mut buffer = vec![0u8; 3];
    let mut con = FtlConnection::new(&data);
    assert_eq!(con.read_str(&mut buffer), StrOutcome::Text("abc".to_string()));
    assert_eq!(con.remaining(), 1);
    assert_eq!(buffer, b"abc".to_vec());
}

#[test]
fn read_str_beyond_ascii() {
    let text = "b\u{fc}cher.example \u{2713} \u{1f600}";
    let mut data = Vec::new();
    encode::write_str(&mut data, text).unwrap();
    data.push(0);
    let mut buffer = vec![0u8; 64];
    let mut con = FtlConnection::new(&data);
    assert_eq!(con.read_str(&mut buffer), StrOutcome::Text(text.to_string()));
    assert_eq!(con.remaining(), 1);
    assert_eq!(&buffer[..text.len()], text.as_bytes());
}

#[test]
fn read_str_end_of_message() {
    let data = [0xc1, 0xa1, b'x'];
    let mut buffer = vec![0u8; 8];
    let mut con = FtlConnection::new(&data);
    assert_eq!(con.read_str(&mut buffer), StrOutcome::EndOfMessage);
    assert_eq!(con.remaining(), 2);
    assert_eq!(con.read_str(&mut buffer), StrOutcome::Text("x".to_string()));
}

#[test]
fn read_str_too_large() {
    let mut data = Vec::new();
    encode::write_str(&mut data, "example.com").unwrap();
    let mut buffer = vec![0u8; 10];
    let mut con = FtlConnection::new(&data);
    assert_eq!(con.read_str(&mut buffer), StrOutcome::Failed(WireError::StringTooLarge));
    assert_eq!(con.remaining(), data.len());
    assert_eq!(buffer.len(), 10);
    // one byte more and it fits
    let mut buffer = vec![0u8; 11];
    assert_eq!(con.read_str(&mut buffer), StrOutcome::Text("example.com".to_string()));
}

#[test]
fn read_str_too_large_before_truncated() {
    // the header asks for 200 bytes, none follow, and the buffer has 100
    let data = [0xd9, 200];
    let mut buffer = vec![0u8; 100];
    assert_eq!(
        FtlConnection::new(&data).read_str(&mut buffer),
        StrOutcome::Failed(WireError::StringTooLarge)
    );
    let mut buffer = vec![0u8; 200];
    assert_eq!(
        FtlConnection::new(&data).read_str(&mut buffer),
        StrOutcome::Failed(WireError::TruncatedStream)
    );
}

#[test]
fn read_str_truncated() {
    let mut buffer = vec![0u8; 4096];
    let empty: [u8; 0] = [];
    assert_eq!(
        FtlConnection::new(&empty).read_str(&mut buffer),
        StrOutcome::Failed(WireError::TruncatedStream)
    );
    for data in [
        &[0xa3, b'a', b'b'][..],
        &[0xd9][..],
        &[0xda, 0x00][..],
        &[0xdb, 0, 0, 0][..],
        &[0xd9, 2, b'a'][..],
    ] {
        let mut con = FtlConnection::new(data);
        assert_eq!(con.read_str(&mut buffer), StrOutcome::Failed(WireError::TruncatedStream));
        assert_eq!(con.remaining(), data.len());
    }
}

#[test]
fn read_str_other_frame() {
    let mut buffer = vec![0u8; 4096];
    // nil, a 32-bit integer, a positive fixnum, a binary, a negative fixnum
    for marker in [0xc0, 0xd2, 0x05, 0xc4, 0xff] {
        let data = [marker, 1, b'a', 0, 0];
        let mut con = FtlConnection::new(&data);
        assert_eq!(con.read_str(&mut buffer), StrOutcome::Failed(WireError::DecodeError));
        assert_eq!(con.remaining(), 5);
    }
}

#[test]
fn read_str_not_utf8() {
    let mut buffer = vec![0u8; 4096];
    for data in [&[0xa2, 0xc3, 0x28][..], &[0xa1, 0xff][..], &[0xa3, 0xed, 0xa0, 0x80][..]] {
        let mut con = FtlConnection::new(data);
        assert_eq!(con.read_str(&mut buffer), StrOutcome::Failed(WireError::DecodeError));
        assert_eq!(con.remaining(), data.len());
    }
}
