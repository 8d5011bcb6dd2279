use seekman::binary::{
    db_error_message, read_bool, read_f32_bits, read_f64_bits, read_i16, read_i32, read_i64, read_osu_string,
    read_u8, read_uleb128, write_i32, write_osu_string, write_uleb128, DbError, ReadPart,
};

#[test]
fn read_u8_advances_by_one() {
    let bytes = [7u8, 9];
    let mut pos: usize = 0;
    assert_eq!(read_u8(&bytes, &mut pos), Ok(7));
    assert_eq!(pos, 1);
    assert_eq!(read_u8(&bytes, &mut pos), Ok(9));
    assert_eq!(pos, 2);
    assert_eq!(read_u8(&bytes, &mut pos), Err(DbError::UnexpectedEnd(ReadPart::OsuDb)));
}

#[test]
fn read_bool_is_nonzero() {
    let bytes = [0u8, 2];
    let mut pos: usize = 0;
    assert_eq!(read_bool(&bytes, &mut pos), Ok(false));
    assert_eq!(read_bool(&bytes, &mut pos), Ok(true));
}

#[test]
fn little_endian_integers() {
    let bytes = [0x34u8, 0x12];
    let mut pos: usize = 0;
    assert_eq!(read_i16(&bytes, &mut pos), Ok(0x1234));

    let bytes = [0xffu8, 0xff, 0xff, 0xff];
    let mut pos: usize = 0;
    assert_eq!(read_i32(&bytes, &mut pos), Ok(-1));
    assert_eq!(pos, 4);

    let bytes = [1u8, 0, 0, 0, 0, 0, 0, 0x80];
    let mut pos: usize = 0;
    assert_eq!(read_i64(&bytes, &mut pos), Ok(i64::MIN + 1));
}

#[test]
fn short_input_reports_the_reader() {
    let bytes = [1u8, 2, 3];
    let mut pos: usize = 0;
    assert_eq!(read_i32(&bytes, &mut pos), Err(DbError::UnexpectedEnd(ReadPart::CollectionDb)));
    let mut pos: usize = 0;
    assert_eq!(read_i64(&bytes, &mut pos), Err(DbError::UnexpectedEnd(ReadPart::OsuDb)));
    let mut pos: usize = 2;
    assert_eq!(read_i16(&bytes, &mut pos), Err(DbError::UnexpectedEnd(ReadPart::OsuDb)));
}

#[test]
fn float_bits_are_little_endian() {
    let bytes = [0u8, 0, 0x80, 0x3f];
    let mut pos: usize = 0;
    let bits = read_f32_bits(&bytes, &mut pos).unwrap();
    assert_eq!(f32::from_bits(bits), 1.0f32);

    let bytes = 2.5f64.to_le_bytes();
    let mut pos: usize = 0;
    let bits = read_f64_bits(&bytes, &mut pos).unwrap();
    assert_eq!(f64::from_bits(bits), 2.5f64);
    assert_eq!(pos, 8);
}

#[test]
fn write_i32_little_endian() {
    let mut out: Vec<u8> = vec![9];
    write_i32(&mut out, -2);
    assert_eq!(out, vec![9, 0xfe, 0xff, 0xff, 0xff]);
}

#[test]
fn uleb128_known_encoding() {
    let mut out: Vec<u8> = Vec::new();
    write_uleb128(&mut out, 300);
    assert_eq!(out, vec![0xac, 0x02]);
    let mut out: Vec<u8> = Vec::new();
    write_uleb128(&mut out, 0);
    assert_eq!(out, vec![0]);
}

#[test]
fn uleb128_roundtrip() {
    for value in [0u64, 1, 127, 128, 16383, 16384, 1 << 34] {
        let mut out: Vec<u8> = Vec::new();
        write_uleb128(&mut out, value);
        let mut pos: usize = 0;
        assert_eq!(read_uleb128(&out, &mut pos), Ok(value));
        assert_eq!(pos, out.len());
    }
}

#[test]
fn uleb128_limits() {
    let bytes = [0x80u8, 0x80, 0x80, 0x80, 0x01];
    let mut pos: usize = 0;
    assert_eq!(read_uleb128(&bytes, &mut pos), Ok(1 << 28));
    let bytes = [0x80u8, 0x80, 0x80, 0x80, 0x80, 0x01];
    let mut pos: usize = 0;
    assert_eq!(read_uleb128(&bytes, &mut pos), Err(DbError::StringLengthTooLarge));
    let bytes = [0x80u8];
    let mut pos: usize = 0;
    assert_eq!(read_uleb128(&bytes, &mut pos), Err(DbError::UnexpectedEnd(ReadPart::StringLength)));
}

#[test]
fn osu_string_encoding() {
    let mut out: Vec<u8> = Vec::new();
    write_osu_string(&mut out, "");
    assert_eq!(out, vec![0]);
    let mut out: Vec<u8> = Vec::new();
    write_osu_string(&mut out, "abc");
    assert_eq!(out, vec![0x0b, 3, b'a', b'b', b'c']);
}

#[test]
fn osu_string_roundtrip() {
    for text in ["", "a", "歌单 playlist", "d41d8cd98f00b204e9800998ecf8427e"] {
        let mut out: Vec<u8> = Vec::new();
        write_osu_string(&mut out, text);
        let mut pos: usize = 0;
        assert_eq!(read_osu_string(&out, &mut pos), Ok(text.to_string()));
        assert_eq!(pos, out.len());
    }
}

#[test]
fn osu_string_errors() {
    let bytes = [0x05u8];
    let mut pos: usize = 0;
    assert_eq!(read_osu_string(&bytes, &mut pos), Err(DbError::BadStringMarker));
    let bytes: [u8; 0] = [];
    let mut pos: usize = 0;
    assert_eq!(read_osu_string(&bytes, &mut pos), Err(DbError::UnexpectedEnd(ReadPart::StringMarker)));
    let bytes = [0x0bu8, 4, b'a'];
    let mut pos: usize = 0;
    assert_eq!(read_osu_string(&bytes, &mut pos), Err(DbError::UnexpectedEnd(ReadPart::StringContent)));
    let bytes = [0x0bu8, 2, b'a', 0xff];
    let mut pos: usize = 0;
    assert_eq!(
        read_osu_string(&bytes, &mut pos),
        Err(DbError::InvalidUtf8 { valid_up_to: 1, error_len: Some(1) })
    );
    let bytes = [0x0bu8, 5, b'a', 0xc3, 0xa9, 0xe4, 0xb8];
    let mut pos: usize = 0;
    assert_eq!(
        read_osu_string(&bytes, &mut pos),
        Err(DbError::InvalidUtf8 { valid_up_to: 3, error_len: None })
    );
}

#[test]
fn read_failure_messages() {
    assert_eq!(db_error_message(DbError::UnexpectedEnd(ReadPart::OsuDb)), "读取 osu!.db 失败：failed to fill whole buffer");
    assert_eq!(
        db_error_message(DbError::UnexpectedEnd(ReadPart::StringContent)),
        "读取字符串内容失败：failed to fill whole buffer"
    );
    assert_eq!(db_error_message(DbError::BadStringMarker), "collection.db 字符串格式无法识别。");
    let bytes = [0x0bu8, 2, b'a', 0xff];
    let mut pos: usize = 0;
    let err = read_osu_string(&bytes, &mut pos).unwrap_err();
    let std_err = String::from_utf8(vec![b'a', 0xff]).unwrap_err().utf8_error();
    assert_eq!(db_error_message(err), format!("字符串不是 UTF-8：{std_err}"));
    assert_eq!(
        db_error_message(DbError::InvalidUtf8 { valid_up_to: 3, error_len: None }),
        "字符串不是 UTF-8：incomplete utf-8 byte sequence from index 3"
    );
}
